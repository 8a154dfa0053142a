//! DNS query filtering: the blocklist and the sinkhole answer built from raw query bytes.
mod blocklist;

pub use blocklist::{
    Blocklist, suffix_blocked, list_entries, list_entry, entries_before, is_line, domain_set,
    lemma_blocked_parent_extension,
    DEFAULT_LIST, NEWLINE,
};

use vstd::prelude::*;
use vstd::utf8::*;
use crate::dns::{
    HEADER_LEN, has_question_name, question_name, read_question_name, sinkhole_answer, push_all,
};
use crate::text::{str_bytes, decode_text};

verus! {

broadcast use vstd::utf8::group_utf8_lib;

/// The domain of a query as written, when its question name can be read and is valid UTF-8.
pub open spec fn written_domain(query: Seq<u8>) -> Option<Seq<char>> {
    if has_question_name(query) && valid_utf8(question_name(query)) {
        Some(decode_utf8(question_name(query)))
    } else {
        None
    }
}

/// Where the question name at `pos` ends, as the raw copy scans it: at its zero byte, or
/// at or past the end of the message.
pub open spec fn raw_name_end(q: Seq<u8>, pos: int) -> int
    decreases q.len() - pos,
{
    if pos < 0 || pos >= q.len() || q[pos] == 0 {
        pos
    } else if pos + 1 + q[pos] >= q.len() {
        pos + 1 + q[pos]
    } else {
        raw_name_end(q, pos + 1 + q[pos])
    }
}

/// The question section of a query copied as it stands (name, type, class), or nothing
/// when it does not fit in the message.
pub open spec fn raw_question(q: Seq<u8>) -> Seq<u8> {
    let e = raw_name_end(q, HEADER_LEN as int) + 5;
    if e <= q.len() {
        q.subrange(HEADER_LEN as int, e)
    } else {
        Seq::empty()
    }
}

/// The sinkhole response built from the raw bytes of a query.
pub open spec fn raw_blocked_wire(q: Seq<u8>) -> Seq<u8> {
    q.subrange(0, 2) + seq![0x81u8, 0x80, 0x00, 0x01, 0x00, 0x01, 0x00, 0x00, 0x00, 0x00]
        + raw_question(q) + sinkhole_answer()
}

/// Extracts the queried domain name from a DNS query packet.
///
/// Returns `None` if the packet is malformed or too short.
pub fn get_domain(query: &[u8]) -> (r: Option<String>)
    ensures
        r is Some <==> written_domain(query@) is Some,
        r matches Some(d) ==> d@ == written_domain(query@).unwrap(),
{
    extract_domain(query)
}

/// Checks whether a DNS query is blocked and returns the sinkhole response if it is.
///
/// Returns `Some(response)` if the query should be blocked, `None` if it should
/// be forwarded to upstream.
pub fn filter_query(blocklist: &Blocklist, query: &[u8]) -> (r: Option<Vec<u8>>)
    ensures
        r is Some <==> written_domain(query@) is Some && suffix_blocked(
            blocklist@,
            question_name(query@),
        ),
        r matches Some(v) ==> v@ == raw_blocked_wire(query@),
{
    let domain = match extract_domain(query) {
        Some(d) => d,
        None => return None,
    };
    if blocklist.is_blocked(domain.as_str()) {
        Some(create_blocked_response(query))
    } else {
        None
    }
}

/// Extracts the queried domain name, labels joined with `.`, as written.
fn extract_domain(query: &[u8]) -> (r: Option<String>)
    ensures
        r is Some <==> written_domain(query@) is Some,
        r matches Some(d) ==> d@ == written_domain(query@).unwrap() && str_bytes(d@)
            == question_name(query@),
{
    match read_question_name(query) {
        Some((name, _)) => decode_text(name.as_slice()),
        None => None,
    }
}

/// Builds a sinkhole response (0.0.0.0) from the raw bytes of a query, copying its id and
/// its question section.
fn create_blocked_response(query: &[u8]) -> (r: Vec<u8>)
    requires
        query@.len() >= 2,
    ensures
        r@ == raw_blocked_wire(query@),
{
    let len = query.len();
    let mut response: Vec<u8> = Vec::with_capacity(64);
    response.push(query[0]);
    response.push(query[1]);
    push_all(&mut response, &[0x81, 0x80, 0x00, 0x01, 0x00, 0x01, 0x00, 0x00, 0x00, 0x00]);
    let ghost header = response@;
    assert(header =~= query@.subrange(0, 2) + seq![0x81u8, 0x80, 0x00, 0x01, 0x00, 0x01, 0x00, 0x00, 0x00, 0x00]);

    if len > HEADER_LEN {
        let mut pos: usize = HEADER_LEN;
        let mut over = false;
        while !over && pos < len && query[pos] != 0
            invariant
                HEADER_LEN <= pos <= len,
                len == query@.len(),
                !over ==> raw_name_end(query@, pos as int) == raw_name_end(query@, HEADER_LEN as int),
                over ==> raw_name_end(query@, HEADER_LEN as int) > len,
            decreases len - pos + (if over { 0int } else { 1int }),
        {
            let step = 1 + query[pos] as usize;
            if step > len - pos {
                over = true;
            } else {
                pos = pos + step;
            }
        }
        if !over && len - pos >= 5 {
            push_all(&mut response, &query[HEADER_LEN..pos + 5]);
        }
    }
    push_all(&mut response, &[0xC0, 0x0C, 0x00, 0x01, 0x00, 0x01, 0x00, 0x00, 0x01, 0x2C, 0x00, 0x04, 0x00, 0x00, 0x00, 0x00]);
    assert(response@ =~= raw_blocked_wire(query@));
    response
}

} // verus!
