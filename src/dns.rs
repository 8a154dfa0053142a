//! DNS message parsing and construction.
use vstd::prelude::*;
use vstd::utf8::*;
use crate::text::{
    DOT, lower_bytes, str_bytes, lowercase_ascii, decode_text, ascii_bytes, lemma_ascii_decode,
    lemma_lower_keeps_utf8,
};

verus! {

broadcast use vstd::utf8::group_utf8_lib;

/// Length of the fixed DNS header.
pub const HEADER_LEN: usize = 12;

/// The flags word of a sinkhole answer: a response, recursion desired and available, no error.
pub const BLOCKED_FLAGS: u16 = 0x8180;

/// TTL in seconds of the sinkhole answer.
pub const BLOCKED_TTL: u32 = 300;

/// The big-endian 16-bit value of two bytes.
pub open spec fn be16(hi: u8, lo: u8) -> u16 {
    (hi as int * 256 + lo as int) as u16
}

/// The big-endian 32-bit value of four bytes.
pub open spec fn be32(a: u8, b: u8, c: u8, d: u8) -> u32 {
    (a as int * 16777216 + b as int * 65536 + c as int * 256 + d as int) as u32
}

/// Big-endian bytes of a 16-bit value.
pub open spec fn u16_bytes(v: u16) -> Seq<u8> {
    seq![(v / 256) as u8, (v % 256) as u8]
}

/// Big-endian bytes of a 32-bit value.
pub open spec fn u32_bytes(v: u32) -> Seq<u8> {
    seq![(v / 16777216) as u8, ((v / 65536) % 256) as u8, ((v / 256) % 256) as u8, (v % 256) as u8]
}

/// `bytes` with its first two bytes replaced by `id` in big-endian order.
pub open spec fn with_id(bytes: Seq<u8>, id: u16) -> Seq<u8> {
    bytes.update(0, (id / 256) as u8).update(1, (id % 256) as u8)
}

/// Reads a big-endian 16-bit value at `pos`.
pub fn read_u16(data: &[u8], pos: usize) -> (r: u16)
    requires
        pos + 2 <= data@.len(),
    ensures
        r == be16(data@[pos as int], data@[pos + 1]),
{
    (data[pos] as u16) * 256 + (data[pos + 1] as u16)
}

/// Reads a big-endian 32-bit value at `pos`.
fn read_u32(data: &[u8], pos: usize) -> (r: u32)
    requires
        pos + 4 <= data@.len(),
    ensures
        r == be32(data@[pos as int], data@[pos + 1], data@[pos + 2], data@[pos + 3]),
{
    (data[pos] as u32) * 16777216 + (data[pos + 1] as u32) * 65536 + (data[pos + 2] as u32) * 256
        + (data[pos + 3] as u32)
}

fn push_u16(buf: &mut Vec<u8>, v: u16)
    ensures
        final(buf)@ == old(buf)@ + u16_bytes(v),
{
    buf.push((v / 256) as u8);
    buf.push((v % 256) as u8);
    assert(final(buf)@ =~= old(buf)@ + u16_bytes(v));
}

fn push_u32(buf: &mut Vec<u8>, v: u32)
    ensures
        final(buf)@ == old(buf)@ + u32_bytes(v),
{
    buf.push((v / 16777216) as u8);
    buf.push(((v / 65536) % 256) as u8);
    buf.push(((v / 256) % 256) as u8);
    buf.push((v % 256) as u8);
    assert(final(buf)@ =~= old(buf)@ + u32_bytes(v));
}

/// Appends `src` to `buf`.
pub fn push_all(buf: &mut Vec<u8>, src: &[u8])
    ensures
        final(buf)@ == old(buf)@ + src@,
{
    let mut i: usize = 0;
    while i < src.len()
        invariant
            i <= src@.len(),
            buf@ == old(buf)@ + src@.subrange(0, i as int),
        decreases src@.len() - i,
    {
        buf.push(src[i]);
        i += 1;
        assert(buf@ =~= old(buf)@ + src@.subrange(0, i as int));
    }
    assert(src@.subrange(0, i as int) =~= src@);
}

/// The labels of an uncompressed name that starts at `pos`, with the position just past
/// its terminating zero byte; `None` when a label runs past the end or no terminator comes.
pub open spec fn read_labels(data: Seq<u8>, pos: int) -> Option<(Seq<Seq<u8>>, int)>
    decreases data.len() - pos,
{
    if pos < 0 || pos >= data.len() {
        None
    } else if data[pos] == 0 {
        Some((Seq::empty(), pos + 1))
    } else if pos + 1 + data[pos] > data.len() {
        None
    } else {
        let label = data.subrange(pos + 1, pos + 1 + data[pos]);
        match read_labels(data, pos + 1 + data[pos]) {
            Some((rest, end)) => Some((seq![label] + rest, end)),
            None => None,
        }
    }
}

/// Labels joined with `.`.
pub open spec fn join_labels(ls: Seq<Seq<u8>>) -> Seq<u8>
    decreases ls.len(),
{
    if ls.len() == 0 {
        Seq::empty()
    } else if ls.len() == 1 {
        ls[0]
    } else {
        join_labels(ls.drop_last()) + seq![DOT] + ls.last()
    }
}

/// The question name of a message has at least one label and is terminated in bounds.
pub open spec fn has_question_name(data: Seq<u8>) -> bool {
    data.len() > HEADER_LEN && match read_labels(data, HEADER_LEN as int) {
        Some((ls, _)) => ls.len() > 0,
        None => false,
    }
}

/// The raw bytes of the question name, labels joined with `.`.
pub open spec fn question_name(data: Seq<u8>) -> Seq<u8> {
    join_labels(read_labels(data, HEADER_LEN as int).unwrap().0)
}

/// The position just past the question name.
pub open spec fn question_name_end(data: Seq<u8>) -> int {
    read_labels(data, HEADER_LEN as int).unwrap().1
}

/// The lowercased question name, as bytes.
pub open spec fn query_name(data: Seq<u8>) -> Seq<u8> {
    lower_bytes(question_name(data))
}

/// The bytes hold a query that `DnsQuery::parse` accepts: a question name, four bytes of
/// type and class after it, and labels that are valid UTF-8.
pub open spec fn query_well_formed(data: Seq<u8>) -> bool {
    &&& has_question_name(data)
    &&& question_name_end(data) + 4 <= data.len()
    &&& valid_utf8(question_name(data))
}

/// The domain of a well-formed query: its name in lowercase.
pub open spec fn query_domain(data: Seq<u8>) -> Seq<char> {
    decode_utf8(query_name(data))
}

/// The type of a well-formed query.
pub open spec fn query_type(data: Seq<u8>) -> u16 {
    be16(data[question_name_end(data)], data[question_name_end(data) + 1])
}

/// The class of a well-formed query.
pub open spec fn query_class(data: Seq<u8>) -> u16 {
    be16(data[question_name_end(data) + 2], data[question_name_end(data) + 3])
}

/// The transaction id of a message.
pub open spec fn message_id(data: Seq<u8>) -> u16 {
    be16(data[0], data[1])
}

/// Reads the uncompressed question name at offset 12: its labels joined with `.`, and the
/// position just past the terminating zero byte.
pub fn read_question_name(data: &[u8]) -> (r: Option<(Vec<u8>, usize)>)
    ensures
        r is Some <==> has_question_name(data@),
        r matches Some((name, end)) ==> name@ == question_name(data@) && end
            == question_name_end(data@),
{
    if data.len() < HEADER_LEN + 1 {
        return None;
    }
    let mut pos: usize = HEADER_LEN;
    let mut name: Vec<u8> = Vec::new();
    let mut count: usize = 0;
    let mut done = false;
    let ghost mut consumed: Seq<Seq<u8>> = Seq::empty();
    while !done && pos < data.len()
        invariant
            HEADER_LEN <= pos <= data@.len(),
            count == consumed.len(),
            count <= pos,
            name@ == join_labels(consumed),
            !done ==> read_labels(data@, HEADER_LEN as int) == match read_labels(data@, pos as int) {
                Some((ls, e)) => Some((consumed + ls, e)),
                None => None,
            },
            done ==> read_labels(data@, HEADER_LEN as int) == Some((consumed, pos as int)),
        decreases data@.len() - pos + (if done { 0int } else { 1int }),
    {
        let label_len = data[pos] as usize;
        if label_len == 0 {
            proof {
                assert(consumed + Seq::<Seq<u8>>::empty() =~= consumed);
            }
            pos += 1;
            done = true;
        } else {
            if label_len > data.len() - pos - 1 {
                return None;
            }
            let ghost label = data@.subrange(pos + 1, pos + 1 + label_len);
            let ghost old_pos = pos;
            if count > 0 {
                name.push(DOT);
            }
            push_all(&mut name, &data[pos + 1..pos + 1 + label_len]);
            proof {
                let next = consumed.push(label);
                assert(next.drop_last() =~= consumed);
                assert(next.last() == label);
                assert(name@ =~= join_labels(next));
                match read_labels(data@, (old_pos + 1 + label_len) as int) {
                    Some((ls, e)) => {
                        assert(consumed + (seq![label] + ls) =~= next + ls);
                    },
                    None => {},
                }
                consumed = next;
            }
            count += 1;
            pos = pos + 1 + label_len;
        }
    }
    if !done || count == 0 {
        return None;
    }
    Some((name, pos))
}


/// `pos + k`, or `len` where that would pass the end: every position at or past the end
/// reads alike in a TTL scan.
pub open spec fn advance(pos: int, k: int, len: int) -> int {
    if pos + k > len {
        len
    } else {
        pos + k
    }
}

fn advance_by(pos: usize, k: usize, len: usize) -> (r: usize)
    requires
        pos <= len,
    ensures
        r == advance(pos as int, k as int, len as int),
{
    if k > len - pos {
        len
    } else {
        pos + k
    }
}

/// Position after the name at `pos`, as a TTL scan skips it: labels are passed over, and a
/// zero byte or a compression pointer (two bytes) ends the name.
pub open spec fn skip_name(r: Seq<u8>, pos: int) -> int
    decreases r.len() - pos,
{
    if pos < 0 || pos >= r.len() {
        pos
    } else if r[pos] == 0 {
        pos + 1
    } else if r[pos] >= 0xC0 {
        advance(pos, 2, r.len() as int)
    } else {
        skip_name(r, advance(pos, 1 + r[pos], r.len() as int))
    }
}

/// The smaller of a TTL and the minimum found so far.
pub open spec fn min_found(found: Option<u32>, ttl: u32) -> Option<u32> {
    match found {
        Some(m) => if ttl < m {
            Some(ttl)
        } else {
            Some(m)
        },
        None => Some(ttl),
    }
}

/// Minimum TTL over at most `remaining` records starting at `pos`; the scan stops at the
/// first record whose fixed fields do not fit.
pub open spec fn scan_ttls(r: Seq<u8>, pos: int, remaining: int, found: Option<u32>) -> Option<u32>
    decreases remaining,
{
    if remaining <= 0 || pos >= r.len() {
        found
    } else {
        let p = skip_name(r, pos);
        if p + 10 > r.len() {
            found
        } else {
            let ttl = be32(r[p + 4], r[p + 5], r[p + 6], r[p + 7]);
            scan_ttls(
                r,
                advance(p, 10 + be16(r[p + 8], r[p + 9]), r.len() as int),
                remaining - 1,
                min_found(found, ttl),
            )
        }
    }
}

/// The record count of a message: answers, authority and additional records.
pub open spec fn record_count(r: Seq<u8>) -> int {
    be16(r[6], r[7]) + be16(r[8], r[9]) + be16(r[10], r[11])
}

/// The minimum TTL over the records of a message, when one could be read.
pub open spec fn min_ttl(r: Seq<u8>) -> Option<u32> {
    if r.len() < HEADER_LEN {
        None
    } else {
        scan_ttls(
            r,
            advance(skip_name(r, HEADER_LEN as int), 4, r.len() as int),
            record_count(r),
            None,
        )
    }
}

fn skip_name_at(r: &[u8], pos: usize) -> (p: usize)
    requires
        pos <= r@.len(),
    ensures
        p == skip_name(r@, pos as int),
        p <= r@.len(),
{
    let mut p = pos;
    while p < r.len()
        invariant
            pos <= p <= r@.len(),
            skip_name(r@, p as int) == skip_name(r@, pos as int),
        decreases r@.len() - p,
    {
        let b = r[p];
        if b == 0 {
            return p + 1;
        }
        if b >= 0xC0 {
            return advance_by(p, 2, r.len());
        }
        p = advance_by(p, 1 + b as usize, r.len());
    }
    p
}

/// A parsed DNS query.
#[derive(Debug, Clone)]
pub struct DnsQuery {
    pub id: u16,
    pub domain: String,
    pub qtype: u16,
    pub qclass: u16,
}

impl DnsQuery {
    /// Parses the header id and the first question of a message.
    pub fn parse(data: &[u8]) -> (r: Option<Self>)
        ensures
            r is Some <==> query_well_formed(data@),
            r matches Some(q) ==> {
                &&& q.id == message_id(data@)
                &&& q.domain@ == query_domain(data@)
                &&& str_bytes(q.domain@) == query_name(data@)
                &&& q.qtype == query_type(data@)
                &&& q.qclass == query_class(data@)
            },
    {
        let (raw, pos) = match read_question_name(data) {
            Some(found) => found,
            None => return None,
        };
        if pos > data.len() || data.len() - pos < 4 {
            return None;
        }
        let id = read_u16(data, 0);
        let qtype = read_u16(data, pos);
        let qclass = read_u16(data, pos + 2);
        let lowered = lowercase_ascii(raw.as_slice());
        proof {
            lemma_lower_keeps_utf8(raw@);
        }
        match decode_text(lowered.as_slice()) {
            Some(domain) => Some(DnsQuery { id, domain, qtype, qclass }),
            None => None,
        }
    }

    /// The sinkhole response for this query.
    pub fn blocked_response(&self) -> (r: DnsResponse)
        ensures
            r.is_blocked_for(self),
    {
        DnsResponse::blocked(self)
    }

    /// Copies a cached response and rewrites its transaction id to this query's id.
    pub fn response_from_cache(&self, cached: &[u8]) -> (r: Option<Vec<u8>>)
        ensures
            r is Some <==> cached@.len() >= 2,
            r matches Some(v) ==> v@ == with_id(cached@, self.id),
    {
        if cached.len() < 2 {
            return None;
        }
        let mut response = vstd::slice::slice_to_vec(cached);
        response.set(0, (self.id / 256) as u8);
        response.set(1, (self.id % 256) as u8);
        Some(response)
    }
}

/// A DNS response.
#[derive(Debug, Clone)]
pub struct DnsResponse {
    pub id: u16,
    pub flags: u16,
    pub questions: Vec<DnsQuestion>,
    pub answers: Vec<DnsRecord>,
}

/// A DNS question section entry.
#[derive(Debug, Clone)]
pub struct DnsQuestion {
    pub domain: String,
    pub qtype: u16,
    pub qclass: u16,
}

/// A DNS resource record.
#[derive(Debug, Clone)]
pub struct DnsRecord {
    pub name: String,
    pub rtype: u16,
    pub class: u16,
    pub ttl: u32,
    pub rdata: Vec<u8>,
}

/// Wire form of a name whose current label starts at `start`, scanned from `i`:
/// each `.`-separated label becomes its length byte and its bytes, and a zero byte ends it.
pub open spec fn name_wire_from(b: Seq<u8>, start: int, i: int) -> Seq<u8>
    decreases b.len() - i,
{
    if i >= b.len() {
        seq![(i - start) as u8] + b.subrange(start, i) + seq![0u8]
    } else if b[i] == DOT {
        seq![(i - start) as u8] + b.subrange(start, i) + name_wire_from(b, i + 1, i + 1)
    } else {
        name_wire_from(b, start, i + 1)
    }
}

/// Wire form of a dotted name, given as bytes.
pub open spec fn name_wire(b: Seq<u8>) -> Seq<u8> {
    name_wire_from(b, 0, 0)
}

/// Wire form of one question entry.
pub open spec fn question_wire(q: DnsQuestion) -> Seq<u8> {
    name_wire(str_bytes(q.domain@)) + u16_bytes(q.qtype) + u16_bytes(q.qclass)
}

/// Wire form of a sequence of question entries.
pub open spec fn questions_wire(qs: Seq<DnsQuestion>) -> Seq<u8>
    decreases qs.len(),
{
    if qs.len() == 0 {
        Seq::empty()
    } else {
        questions_wire(qs.drop_last()) + question_wire(qs.last())
    }
}

/// Wire form of one record; its name becomes a pointer to offset 12 when it equals the
/// first question's domain.
pub open spec fn record_wire(a: DnsRecord, qs: Seq<DnsQuestion>) -> Seq<u8> {
    (if qs.len() > 0 && a.name@ == qs[0].domain@ {
        seq![0xC0u8, 0x0Cu8]
    } else {
        name_wire(str_bytes(a.name@))
    }) + u16_bytes(a.rtype) + u16_bytes(a.class) + u32_bytes(a.ttl) + u16_bytes(
        a.rdata@.len() as u16,
    ) + a.rdata@
}

/// Wire form of a sequence of records.
pub open spec fn records_wire(rs: Seq<DnsRecord>, qs: Seq<DnsQuestion>) -> Seq<u8>
    decreases rs.len(),
{
    if rs.len() == 0 {
        Seq::empty()
    } else {
        records_wire(rs.drop_last(), qs) + record_wire(rs.last(), qs)
    }
}

/// Wire form of a response: header, questions and answers, with zero authority and
/// additional counts.
pub open spec fn response_wire(r: DnsResponse) -> Seq<u8> {
    u16_bytes(r.id) + u16_bytes(r.flags) + u16_bytes(r.questions@.len() as u16) + u16_bytes(
        r.answers@.len() as u16,
    ) + seq![0u8, 0u8, 0u8, 0u8] + questions_wire(r.questions@) + records_wire(
        r.answers@,
        r.questions@,
    )
}

/// The answer record of a sinkhole response: a pointer to the question name, type A,
/// class IN, TTL 300 and the address 0.0.0.0.
pub open spec fn sinkhole_answer() -> Seq<u8> {
    seq![0xC0u8, 0x0C, 0x00, 0x01, 0x00, 0x01, 0x00, 0x00, 0x01, 0x2C, 0x00, 0x04, 0x00, 0x00, 0x00, 0x00]
}

/// Bytes of a sinkhole response to a query with this id, name (as bytes), type and class.
pub open spec fn blocked_wire(id: u16, name: Seq<u8>, qtype: u16, qclass: u16) -> Seq<u8> {
    u16_bytes(id) + seq![0x81u8, 0x80, 0x00, 0x01, 0x00, 0x01, 0x00, 0x00, 0x00, 0x00]
        + name_wire(name) + u16_bytes(qtype) + u16_bytes(qclass) + sinkhole_answer()
}

/// The bytes of a sinkhole response, as `to_bytes` writes them.
pub proof fn lemma_blocked_wire(r: DnsResponse, q: DnsQuery)
    requires
        r.is_blocked_for(&q),
    ensures
        response_wire(r) == blocked_wire(q.id, str_bytes(q.domain@), q.qtype, q.qclass),
{
    let qs = r.questions@;
    let rs = r.answers@;
    assert(qs.drop_last() =~= Seq::<DnsQuestion>::empty());
    assert(rs.drop_last() =~= Seq::<DnsRecord>::empty());
    assert(questions_wire(qs.drop_last()) == Seq::<u8>::empty());
    assert(records_wire(rs.drop_last(), qs) == Seq::<u8>::empty());
    assert(qs.last() == qs[0]);
    assert(rs.last() == rs[0]);
    assert(questions_wire(qs) =~= question_wire(qs[0]));
    assert(records_wire(rs, qs) =~= record_wire(rs[0], qs));
    assert(u16_bytes(1) =~= seq![0x00u8, 0x01]);
    assert(u16_bytes(BLOCKED_FLAGS) =~= seq![0x81u8, 0x80]);
    assert(u16_bytes(4) =~= seq![0x00u8, 0x04]);
    assert(u32_bytes(BLOCKED_TTL) =~= seq![0x00u8, 0x00, 0x01, 0x2C]);
    assert(record_wire(rs[0], qs) =~= sinkhole_answer());
    assert(response_wire(r) =~= blocked_wire(q.id, str_bytes(q.domain@), q.qtype, q.qclass));
}

/// An uncompressed name on the wire: each label as its length byte and its bytes, then a
/// zero byte.
pub open spec fn labels_wire(ls: Seq<Seq<u8>>) -> Seq<u8>
    decreases ls.len(),
{
    if ls.len() == 0 {
        seq![0u8]
    } else {
        seq![ls[0].len() as u8] + ls[0] + labels_wire(ls.drop_first())
    }
}

/// Labels that can be written on the wire: each of 1 to 255 bytes.
pub open spec fn wire_labels(ls: Seq<Seq<u8>>) -> bool {
    forall|i: int| 0 <= i < ls.len() ==> 0 < #[trigger] ls[i].len() <= 255
}

/// A query message: a 12-byte header (id first), one question, and whatever follows it.
pub open spec fn query_message(
    header: Seq<u8>,
    ls: Seq<Seq<u8>>,
    qtype: u16,
    qclass: u16,
    rest: Seq<u8>,
) -> Seq<u8> {
    header + labels_wire(ls) + u16_bytes(qtype) + u16_bytes(qclass) + rest
}

proof fn lemma_read_labels_wire(pre: Seq<u8>, ls: Seq<Seq<u8>>, post: Seq<u8>)
    requires
        wire_labels(ls),
    ensures
        read_labels(pre + labels_wire(ls) + post, pre.len() as int) == Some(
            (ls, pre.len() + labels_wire(ls).len() as int),
        ),
    decreases ls.len(),
{
    let data = pre + labels_wire(ls) + post;
    if ls.len() == 0 {
        assert(data[pre.len() as int] == 0);
        assert(ls =~= Seq::<Seq<u8>>::empty());
    } else {
        let l = ls[0];
        let pre2 = pre + seq![l.len() as u8] + l;
        let tail = ls.drop_first();
        assert(wire_labels(tail)) by {
            assert forall|i: int| 0 <= i < tail.len() implies 0 < #[trigger] tail[i].len() <= 255 by {
                assert(tail[i] == ls[i + 1]);
            }
        }
        lemma_read_labels_wire(pre2, tail, post);
        assert(pre2 + labels_wire(tail) + post =~= data);
        assert(data[pre.len() as int] == l.len() as u8);
        assert(data.subrange(pre.len() + 1int, pre.len() + 1int + l.len()) =~= l);
        assert(seq![l] + tail =~= ls);
    }
}

/// Reading back the big-endian bytes of a 16-bit value gives the value.
pub proof fn lemma_be16_bytes(v: u16)
    ensures
        be16(u16_bytes(v)[0], u16_bytes(v)[1]) == v,
{
    assert((v / 256) as u8 as int * 256 + (v % 256) as u8 as int == v) by (nonlinear_arith);
}

proof fn lemma_join_ascii(ls: Seq<Seq<u8>>)
    requires
        forall|i: int| 0 <= i < ls.len() ==> ascii_bytes(#[trigger] ls[i]),
    ensures
        ascii_bytes(join_labels(ls)),
    decreases ls.len(),
{
    if ls.len() > 1 {
        let init = ls.drop_last();
        assert forall|i: int| 0 <= i < init.len() implies ascii_bytes(#[trigger] init[i]) by {
            assert(init[i] == ls[i]);
        }
        lemma_join_ascii(init);
        let j = join_labels(ls);
        assert(ascii_bytes(ls.last()));
        assert forall|i: int| 0 <= i < j.len() implies #[trigger] j[i] < 0x80 by {
            if i < join_labels(init).len() {
                assert(j[i] == join_labels(init)[i]);
            } else if i == join_labels(init).len() {
                assert(j[i] == DOT);
            } else {
                assert(j[i] == ls.last()[i - join_labels(init).len() - 1]);
            }
        }
    } else if ls.len() == 1 {
        assert(ascii_bytes(ls[0]));
    }
}

/// Parsing a query message gives back the id, the labels joined with `.` in lowercase,
/// the type and the class that were written, for any ASCII labels.
pub proof fn lemma_query_round_trip(
    header: Seq<u8>,
    ls: Seq<Seq<u8>>,
    qtype: u16,
    qclass: u16,
    rest: Seq<u8>,
)
    requires
        header.len() == HEADER_LEN,
        ls.len() > 0,
        wire_labels(ls),
        forall|i: int| 0 <= i < ls.len() ==> ascii_bytes(#[trigger] ls[i]),
    ensures
        ({
            let data = query_message(header, ls, qtype, qclass, rest);
            &&& query_well_formed(data)
            &&& message_id(data) == be16(header[0], header[1])
            &&& query_name(data) == lower_bytes(join_labels(ls))
            &&& query_domain(data) == lower_bytes(join_labels(ls)).map_values(|c: u8| c as char)
            &&& query_type(data) == qtype
            &&& query_class(data) == qclass
        }),
{
    let data = query_message(header, ls, qtype, qclass, rest);
    let post = u16_bytes(qtype) + u16_bytes(qclass) + rest;
    assert(header + labels_wire(ls) + post =~= data);
    lemma_read_labels_wire(header, ls, post);
    let end = (header.len() + labels_wire(ls).len()) as int;
    assert(data[end] == u16_bytes(qtype)[0]);
    assert(data[end + 1] == u16_bytes(qtype)[1]);
    assert(data[end + 2] == u16_bytes(qclass)[0]);
    assert(data[end + 3] == u16_bytes(qclass)[1]);
    lemma_be16_bytes(qtype);
    lemma_be16_bytes(qclass);
    assert(data[0] == header[0] && data[1] == header[1]);
    lemma_join_ascii(ls);
    let name = lower_bytes(join_labels(ls));
    assert(ascii_bytes(name));
    lemma_ascii_decode(name);
    lemma_lower_keeps_utf8(join_labels(ls));
}

impl DnsResponse {
    /// This is the sinkhole response to `q`: its id, flags 0x8180, the question echoed,
    /// and one A record 0.0.0.0 with TTL 300 named like the question.
    pub open spec fn is_blocked_for(&self, q: &DnsQuery) -> bool {
        &&& self.id == q.id
        &&& self.flags == BLOCKED_FLAGS
        &&& self.questions@.len() == 1
        &&& self.questions@[0].domain@ == q.domain@
        &&& self.questions@[0].qtype == q.qtype
        &&& self.questions@[0].qclass == q.qclass
        &&& self.answers@.len() == 1
        &&& self.answers@[0].name@ == q.domain@
        &&& self.answers@[0].rtype == 1
        &&& self.answers@[0].class == 1
        &&& self.answers@[0].ttl == BLOCKED_TTL
        &&& self.answers@[0].rdata@ == seq![0u8, 0u8, 0u8, 0u8]
    }

    /// Minimum TTL in seconds over the records of a response, or `default_secs` when no
    /// record could be read.
    pub fn parse_min_ttl(response: &[u8], default_secs: u64) -> (r: u64)
        ensures
            r == match min_ttl(response@) {
                Some(t) => t as u64,
                None => default_secs,
            },
    {
        if response.len() < HEADER_LEN {
            return default_secs;
        }
        let ancount = read_u16(response, 6) as usize;
        let nscount = read_u16(response, 8) as usize;
        let arcount = read_u16(response, 10) as usize;
        let total_rrs = ancount + nscount + arcount;
        let len = response.len();
        let q_end = skip_name_at(response, HEADER_LEN);
        let mut pos = advance_by(q_end, 4, len);
        let mut found: Option<u32> = None;
        let mut remaining: usize = total_rrs;
        while remaining > 0 && pos < len
            invariant
                len == response@.len(),
                pos <= len,
                remaining <= total_rrs,
                scan_ttls(response@, pos as int, remaining as int, found) == min_ttl(response@),
            decreases remaining,
        {
            let p = skip_name_at(response, pos);
            if len < 10 || p > len - 10 {
                remaining = 0;
            } else {
                let ttl = read_u32(response, p + 4);
                found = match found {
                    Some(m) => if ttl < m {
                        Some(ttl)
                    } else {
                        Some(m)
                    },
                    None => Some(ttl),
                };
                let rdlength = read_u16(response, p + 8) as usize;
                pos = advance_by(p, 10 + rdlength, len);
                remaining -= 1;
            }
        }
        match found {
            Some(t) => t as u64,
            None => default_secs,
        }
    }

    /// Creates the sinkhole response (0.0.0.0) for a query.
    pub fn blocked(query: &DnsQuery) -> (r: Self)
        ensures
            r.is_blocked_for(query),
    {
        let question = DnsQuestion {
            domain: query.domain.clone(),
            qtype: query.qtype,
            qclass: query.qclass,
        };
        let answer = DnsRecord {
            name: query.domain.clone(),
            rtype: 1,
            class: 1,
            ttl: BLOCKED_TTL,
            rdata: vec![0u8, 0u8, 0u8, 0u8],
        };
        DnsResponse { id: query.id, flags: BLOCKED_FLAGS, questions: vec![question], answers: vec![answer] }
    }

    /// Encodes the response to wire format bytes.
    pub fn to_bytes(&self) -> (r: Vec<u8>)
        ensures
            r@ == response_wire(*self),
    {
        let mut data: Vec<u8> = Vec::with_capacity(512);
        push_u16(&mut data, self.id);
        push_u16(&mut data, self.flags);
        push_u16(&mut data, self.questions.len() as u16);
        push_u16(&mut data, self.answers.len() as u16);
        push_u16(&mut data, 0);
        push_u16(&mut data, 0);
        let ghost header = data@;
        assert(header =~= u16_bytes(self.id) + u16_bytes(self.flags) + u16_bytes(
            self.questions@.len() as u16,
        ) + u16_bytes(self.answers@.len() as u16) + seq![0u8, 0u8, 0u8, 0u8]);

        let mut i: usize = 0;
        while i < self.questions.len()
            invariant
                i <= self.questions@.len(),
                data@ == header + questions_wire(self.questions@.subrange(0, i as int)),
            decreases self.questions@.len() - i,
        {
            let q = &self.questions[i];
            Self::encode_domain(&mut data, q.domain.as_str());
            push_u16(&mut data, q.qtype);
            push_u16(&mut data, q.qclass);
            proof {
                let qs = self.questions@.subrange(0, i + 1);
                assert(qs.drop_last() =~= self.questions@.subrange(0, i as int));
                assert(data@ =~= header + questions_wire(qs));
            }
            i += 1;
        }
        assert(self.questions@.subrange(0, i as int) =~= self.questions@);
        let ghost with_questions = data@;

        let mut j: usize = 0;
        while j < self.answers.len()
            invariant
                j <= self.answers@.len(),
                data@ == with_questions + records_wire(
                    self.answers@.subrange(0, j as int),
                    self.questions@,
                ),
            decreases self.answers@.len() - j,
        {
            let a = &self.answers[j];
            let ghost before = data@;
            if self.questions.len() > 0 && a.name == self.questions[0].domain {
                data.push(0xC0);
                data.push(0x0C);
            } else {
                Self::encode_domain(&mut data, a.name.as_str());
            }
            push_u16(&mut data, a.rtype);
            push_u16(&mut data, a.class);
            push_u32(&mut data, a.ttl);
            push_u16(&mut data, a.rdata.len() as u16);
            push_all(&mut data, a.rdata.as_slice());
            proof {
                let rs = self.answers@.subrange(0, j + 1);
                assert(rs.drop_last() =~= self.answers@.subrange(0, j as int));
                assert(rs.last() == *a);
                assert(data@ =~= before + record_wire(*a, self.questions@));
                assert(data@ =~= with_questions + records_wire(rs, self.questions@));
            }
            j += 1;
        }
        assert(self.answers@.subrange(0, j as int) =~= self.answers@);
        data
    }

    /// Appends the wire form of a dotted name.
    fn encode_domain(buf: &mut Vec<u8>, domain: &str)
        ensures
            final(buf)@ == old(buf)@ + name_wire(str_bytes(domain@)),
    {
        let b = domain.as_bytes();
        let mut start: usize = 0;
        let mut i: usize = 0;
        while i < b.len()
            invariant
                start <= i <= b@.len(),
                b@ == str_bytes(domain@),
                buf@ + name_wire_from(b@, start as int, i as int) == old(buf)@ + name_wire(b@),
            decreases b@.len() - i,
        {
            if b[i] == DOT {
                let ghost before = buf@;
                buf.push((i - start) as u8);
                push_all(buf, &b[start..i]);
                proof {
                    assert(before + name_wire_from(b@, start as int, i as int) =~= buf@
                        + name_wire_from(b@, i + 1, i + 1));
                }
                start = i + 1;
            }
            i += 1;
        }
        let ghost before = buf@;
        buf.push((i - start) as u8);
        push_all(buf, &b[start..i]);
        buf.push(0);
        assert(buf@ =~= before + name_wire_from(b@, start as int, i as int));
    }
}

} // verus!
