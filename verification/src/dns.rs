//! Captive-portal DNS answers.
//!
//! Every query that reaches the portal is answered with one `A` record that
//! points the asked-for name at the device itself. The reply keeps the
//! transaction ID and echoes the question section verbatim (RFC 1035 layout:
//! 12-byte header, then length-prefixed labels ending in a zero byte, then
//! QTYPE and QCLASS).

use vstd::prelude::*;

verus! {

/// Offset of the question section: the DNS header is 12 bytes long.
pub const HEADER_LEN: usize = 12;

/// Shortest query handled: header, a one-byte name, QTYPE and QCLASS.
pub const MIN_QUERY_LEN: usize = 17;

/// Position of the zero byte that ends the question name whose first label
/// starts at `i`, if the labels stay inside the packet.
pub open spec fn name_terminator(query: Seq<u8>, i: int) -> Option<int>
    decreases query.len() - i,
{
    if 0 <= i < query.len() {
        if query[i] == 0 {
            Some(i)
        } else {
            let next = i + 1 + query[i];
            if next >= query.len() {
                None
            } else {
                name_terminator(query, next)
            }
        }
    } else {
        None
    }
}

/// The terminator found from `i` lies at or after `i`, inside the packet.
pub proof fn lemma_terminator_bounds(query: Seq<u8>, i: int)
    ensures
        name_terminator(query, i) matches Some(t) ==> i <= t < query.len() && query[t] == 0,
    decreases query.len() - i,
{
    if 0 <= i < query.len() && query[i] != 0 {
        let next = i + 1 + query[i];
        if next < query.len() {
            lemma_terminator_bounds(query, next);
        }
    }
}

/// End (exclusive) of the question section: the name's terminator, then the
/// 2-byte QTYPE and 2-byte QCLASS. `None` when the packet is too short or the
/// question runs past its end.
pub open spec fn question_end(query: Seq<u8>) -> Option<int> {
    if query.len() < MIN_QUERY_LEN {
        None
    } else {
        match name_terminator(query, HEADER_LEN as int) {
            Some(t) => if t + 5 <= query.len() {
                Some(t + 5)
            } else {
                None
            },
            None => None,
        }
    }
}

/// Reply header after the ID: flags 0x8580 (response, authoritative,
/// recursion desired and available, no error), one question, one answer,
/// no authority or additional records.
pub open spec fn reply_flags_and_counts() -> Seq<u8> {
    seq![0x85u8, 0x80u8, 0x00u8, 0x01u8, 0x00u8, 0x01u8, 0x00u8, 0x00u8, 0x00u8, 0x00u8]
}

/// The answer record: a compression pointer to offset 12 (the question's
/// name), TYPE A, CLASS IN, TTL 60 s, RDLENGTH 4, then the four address bytes.
pub open spec fn answer_record(ip: Seq<u8>) -> Seq<u8> {
    seq![0xC0u8, 0x0Cu8, 0x00u8, 0x01u8, 0x00u8, 0x01u8, 0x00u8, 0x00u8, 0x00u8, 0x3Cu8, 0x00u8, 0x04u8]
        + ip
}

/// The reply to `query`: its ID, the fixed flags and counts, its question
/// section verbatim, and an `A` answer carrying `ip`. `None` for a malformed
/// query.
pub open spec fn dns_reply(query: Seq<u8>, ip: Seq<u8>) -> Option<Seq<u8>> {
    match question_end(query) {
        Some(end) => Some(
            query.subrange(0, 2) + reply_flags_and_counts() + query.subrange(
                HEADER_LEN as int,
                end,
            ) + answer_record(ip),
        ),
        None => None,
    }
}

/// Appends `src[from..to]` to `out`.
fn push_range(out: &mut Vec<u8>, src: &[u8], from: usize, to: usize)
    requires
        from <= to <= src@.len(),
    ensures
        final(out)@ == old(out)@ + src@.subrange(from as int, to as int),
{
    let mut k = from;
    while k < to
        invariant
            from <= k <= to <= src@.len(),
            out@ == old(out)@ + src@.subrange(from as int, k as int),
        decreases to - k,
    {
        out.push(src[k]);
        k = k + 1;
        assert(out@ =~= old(out)@ + src@.subrange(from as int, k as int));
    }
}

/// Appends every byte of `src` to `out`.
fn push_all(out: &mut Vec<u8>, src: &[u8])
    ensures
        final(out)@ == old(out)@ + src@,
{
    push_range(out, src, 0, src.len());
    assert(src@.subrange(0, src@.len() as int) =~= src@);
}

/// Finds the end of the question section, scanning the labels of the name.
fn find_question_end(query: &[u8]) -> (res: Option<usize>)
    ensures
        match res {
            Some(e) => question_end(query@) == Some(e as int) && HEADER_LEN + 5 <= e
                <= query@.len(),
            None => question_end(query@) is None,
        },
{
    let len = query.len();
    if len < MIN_QUERY_LEN {
        return None;
    }
    let mut i: usize = HEADER_LEN;
    while query[i] != 0
        invariant
            len == query@.len(),
            MIN_QUERY_LEN <= len,
            HEADER_LEN <= i < len,
            name_terminator(query@, HEADER_LEN as int) == name_terminator(query@, i as int),
        decreases len - i,
    {
        let step: usize = 1 + query[i] as usize;
        if step >= len - i {
            return None;
        }
        i = i + step;
    }
    proof {
        lemma_terminator_bounds(query@, HEADER_LEN as int);
    }
    if len - i < 5 {
        return None;
    }
    Some(i + 5)
}

/// Builds the reply to a DNS query, pointing the asked-for name at `ip`.
///
/// Returns `None` when the query is malformed: shorter than 17 bytes, or a
/// question whose labels, QTYPE or QCLASS run past the end of the packet.
pub fn build_response(query: &[u8], ip: [u8; 4]) -> (res: Option<Vec<u8>>)
    ensures
        match res {
            Some(v) => dns_reply(query@, ip@) == Some(v@),
            None => dns_reply(query@, ip@) is None,
        },
{
    let end = match find_question_end(query) {
        Some(e) => e,
        None => return None,
    };
    let mut out: Vec<u8> = Vec::new();
    push_range(&mut out, query, 0, 2);
    push_all(&mut out, &[0x85u8, 0x80, 0x00, 0x01, 0x00, 0x01, 0x00, 0x00, 0x00, 0x00]);
    push_range(&mut out, query, HEADER_LEN, end);
    push_all(&mut out, &[0xC0u8, 0x0C, 0x00, 0x01, 0x00, 0x01, 0x00, 0x00, 0x00, 0x3C, 0x00, 0x04]);
    push_all(&mut out, &ip);
    proof {
        assert(out@ =~= query@.subrange(0, 2) + reply_flags_and_counts() + query@.subrange(
            HEADER_LEN as int,
            end as int,
        ) + answer_record(ip@));
    }
    Some(out)
}

/// The name scan depends only on the bytes it visits: a packet that agrees
/// with `q1` from `i` up to the terminator finds the same terminator.
proof fn lemma_terminator_agree(q1: Seq<u8>, q2: Seq<u8>, i: int, t: int)
    requires
        name_terminator(q1, i) == Some(t),
        t < q2.len(),
        forall|k: int| i <= k <= t ==> q1[k] == q2[k],
    ensures
        name_terminator(q2, i) == Some(t),
    decreases q1.len() - i,
{
    lemma_terminator_bounds(q1, i);
    if q1[i] != 0 {
        let next = i + 1 + q1[i];
        lemma_terminator_bounds(q1, next);
        lemma_terminator_agree(q1, q2, next, t);
    }
}

/// A reply keeps the query's transaction ID, is 16 bytes longer than the
/// query's header and question, and its answer carries `ip` in its last four
/// bytes.
pub proof fn lemma_reply_layout(query: Seq<u8>, ip: Seq<u8>)
    requires
        ip.len() == 4,
        dns_reply(query, ip) is Some,
    ensures
        ({
            let reply = dns_reply(query, ip)->0;
            let end = question_end(query)->0;
            &&& reply.len() == end + 16
            &&& reply.subrange(0, 2) == query.subrange(0, 2)
            &&& reply.subrange(reply.len() - 4, reply.len() as int) == ip
            &&& reply[2] == 0x85 && reply[3] == 0x80
        }),
{
    let end = question_end(query)->0;
    lemma_terminator_bounds(query, HEADER_LEN as int);
    let reply = dns_reply(query, ip)->0;
    assert(reply.subrange(0, 2) =~= query.subrange(0, 2));
    assert(reply.subrange(reply.len() - 4, reply.len() as int) =~= ip);
}

/// Every reply carries the same kind of answer, whatever type of record the
/// query asked for: right after the question comes a pointer to the question's
/// name (offset 12), TYPE A (1), CLASS IN (1), TTL 60 s, RDLENGTH 4, and then
/// the four bytes of `ip`. The header after the ID reads: response,
/// authoritative, recursion desired and available, no error, one question,
/// one answer, nothing else.
pub proof fn lemma_reply_answer_is_fixed_a_record(query: Seq<u8>, ip: Seq<u8>)
    requires
        ip.len() == 4,
        dns_reply(query, ip) is Some,
    ensures
        ({
            let reply = dns_reply(query, ip)->0;
            let end = question_end(query)->0;
            &&& reply.len() == end + 16
            &&& reply.subrange(2, 12) == seq![0x85u8, 0x80u8, 0u8, 1u8, 0u8, 1u8, 0u8, 0u8, 0u8, 0u8]
            &&& reply.subrange(end, end + 12) == seq![
                0xC0u8,
                0x0Cu8,
                0u8,
                1u8,
                0u8,
                1u8,
                0u8,
                0u8,
                0u8,
                0x3Cu8,
                0u8,
                4u8,
            ]
            &&& reply.subrange(end + 12, end + 16) == ip
        }),
{
    let end = question_end(query)->0;
    lemma_terminator_bounds(query, HEADER_LEN as int);
    let reply = dns_reply(query, ip)->0;
    assert(reply.subrange(2, 12) =~= seq![0x85u8, 0x80u8, 0u8, 1u8, 0u8, 1u8, 0u8, 0u8, 0u8, 0u8]);
    assert(reply.subrange(end, end + 12) =~= seq![
        0xC0u8,
        0x0Cu8,
        0u8,
        1u8,
        0u8,
        1u8,
        0u8,
        0u8,
        0u8,
        0x3Cu8,
        0u8,
        4u8,
    ]);
    assert(reply.subrange(end + 12, end + 16) =~= ip);
}

/// The reply is itself a well-formed DNS message whose question section is
/// the query's, byte for byte, at the same offset.
pub proof fn lemma_reply_question_roundtrip(query: Seq<u8>, ip: Seq<u8>)
    requires
        ip.len() == 4,
        dns_reply(query, ip) is Some,
    ensures
        ({
            let reply = dns_reply(query, ip)->0;
            &&& question_end(reply) == question_end(query)
            &&& reply.subrange(HEADER_LEN as int, question_end(reply)->0) == query.subrange(
                HEADER_LEN as int,
                question_end(query)->0,
            )
        }),
{
    let end = question_end(query)->0;
    let t = name_terminator(query, HEADER_LEN as int)->0;
    lemma_terminator_bounds(query, HEADER_LEN as int);
    let reply = dns_reply(query, ip)->0;
    assert forall|k: int| HEADER_LEN <= k < end implies query[k] == reply[k] by {
        assert(reply[k] == query.subrange(HEADER_LEN as int, end)[k - HEADER_LEN]);
    }
    lemma_terminator_agree(query, reply, HEADER_LEN as int, t);
    assert(reply.subrange(HEADER_LEN as int, end) =~= query.subrange(HEADER_LEN as int, end));
}

} // verus!
