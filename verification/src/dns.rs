//! MagicDNS: answering A queries for names under the mesh suffix from the
//! records of the network map.

use crate::bytes::append_bytes;
use crate::ip::{ipv4_parse, parse_ipv4, Ipv4Address};
use crate::protocol::DnsRecord;
use crate::text::{
    ascii_lowercase, chars_eq, chars_of, ends_with, has_suffix, join_with, lowercase_chars,
    string_from_chars, trim_end_char, trim_end_char_vec, trim_start_char, trim_start_char_vec,
    utf8_error_text, utf8_text, owned,
};
use vstd::prelude::*;
use vstd::utf8::{decode_utf8, valid_utf8};

verus! {

pub const TYPE_A: u16 = 1;

pub const CLASS_IN: u16 = 1;

pub const RCODE_NXDOMAIN: u16 = 3;

pub const RCODE_NOTIMP: u16 = 4;

pub const RESPONSE_TTL_SECONDS: u32 = 30;

pub const MAX_DNS_PACKET_SIZE: usize = 512;

/// Why a DNS request could not be answered.
#[derive(Clone, Debug, PartialEq, Eq)]
pub enum DnsError {
    PacketTooShort,
    UnsupportedQuestionCount,
    NameTruncated,
    CompressedName,
    InvalidLabelLength,
    /// A label that is not UTF-8, with the text of the UTF-8 error.
    InvalidLabelText(String),
    TypeClassTruncated,
}

/// A DNS error as a value: its kind, and for a label that is not UTF-8 the
/// text of the UTF-8 error.
pub enum DnsFault {
    PacketTooShort,
    UnsupportedQuestionCount,
    NameTruncated,
    CompressedName,
    InvalidLabelLength,
    InvalidLabelText(Seq<char>),
    TypeClassTruncated,
}

impl View for DnsError {
    type V = DnsFault;

    open spec fn view(&self) -> DnsFault {
        match self {
            DnsError::PacketTooShort => DnsFault::PacketTooShort,
            DnsError::UnsupportedQuestionCount => DnsFault::UnsupportedQuestionCount,
            DnsError::NameTruncated => DnsFault::NameTruncated,
            DnsError::CompressedName => DnsFault::CompressedName,
            DnsError::InvalidLabelLength => DnsFault::InvalidLabelLength,
            DnsError::InvalidLabelText(m) => DnsFault::InvalidLabelText(m@),
            DnsError::TypeClassTruncated => DnsFault::TypeClassTruncated,
        }
    }
}

impl DnsError {
    /// The message the error reads.
    pub fn message(&self) -> (out: String)
        ensures
            out@ == dns_error_text(self@),
    {
        match self {
            DnsError::PacketTooShort => owned("DNS packet is too short"),
            DnsError::UnsupportedQuestionCount => owned("only one DNS question is supported"),
            DnsError::NameTruncated => owned("DNS question name is truncated"),
            DnsError::CompressedName => owned("compressed DNS question names are not supported"),
            DnsError::InvalidLabelLength => owned("invalid DNS label length"),
            DnsError::InvalidLabelText(m) => owned(m.as_str()),
            DnsError::TypeClassTruncated => owned("DNS question type/class is truncated"),
        }
    }
}

/// The message of an error.
pub open spec fn dns_error_text(e: DnsFault) -> Seq<char> {
    match e {
        DnsFault::PacketTooShort => "DNS packet is too short"@,
        DnsFault::UnsupportedQuestionCount => "only one DNS question is supported"@,
        DnsFault::NameTruncated => "DNS question name is truncated"@,
        DnsFault::CompressedName => "compressed DNS question names are not supported"@,
        DnsFault::InvalidLabelLength => "invalid DNS label length"@,
        DnsFault::InvalidLabelText(m) => m,
        DnsFault::TypeClassTruncated => "DNS question type/class is truncated"@,
    }
}

/// The records a MagicDNS proxy answers from. A clone holds its own copy of
/// the records: setting records on one does not change the other. Where
/// several tasks must see one record list, the program shares a single
/// runtime between them.
#[derive(Clone, Debug)]
pub struct DnsRuntime {
    pub records: Vec<DnsRecord>,
}

impl DnsRuntime {
    pub fn new(records: Vec<DnsRecord>) -> (out: Self)
        ensures
            out.records == records,
    {
        DnsRuntime { records }
    }

    /// Replaces all records.
    pub fn set_records(&mut self, records: Vec<DnsRecord>)
        ensures
            final(self).records == records,
    {
        self.records = records;
    }

    pub fn records_len(&self) -> (n: usize)
        ensures
            n == self.records@.len(),
    {
        self.records.len()
    }
}

/// A name as records are matched: trailing dots removed, ASCII lowercase.
pub open spec fn normalize_name_spec(value: Seq<char>) -> Seq<char> {
    ascii_lowercase(trim_end_char(value, '.'))
}

/// A suffix as queries are matched against it: dots removed from both ends,
/// ASCII lowercase.
pub open spec fn normalize_suffix_spec(value: Seq<char>) -> Seq<char> {
    ascii_lowercase(trim_end_char(trim_start_char(value, '.'), '.'))
}

pub fn normalize_name(value: &str) -> (out: Vec<char>)
    ensures
        out@ == normalize_name_spec(value@),
{
    let cs = chars_of(value);
    let trimmed = trim_end_char_vec(cs.as_slice(), '.');
    lowercase_chars(trimmed.as_slice())
}

pub fn normalize_suffix(value: &str) -> (out: Vec<char>)
    ensures
        out@ == normalize_suffix_spec(value@),
{
    let cs = chars_of(value);
    let front = trim_start_char_vec(cs.as_slice(), '.');
    let trimmed = trim_end_char_vec(front.as_slice(), '.');
    lowercase_chars(trimmed.as_slice())
}

/// A record of type `A` (compared ignoring ASCII case) whose name matches.
pub open spec fn record_answers(r: DnsRecord, query_name: Seq<char>) -> bool {
    (r.record_type@ == seq!['A'] || r.record_type@ == seq!['a']) && normalize_name_spec(r.name@)
        == query_name
}

/// The index of the first record that answers the query name.
pub open spec fn first_answer(records: Seq<DnsRecord>, query_name: Seq<char>) -> Option<int>
    decreases records.len(),
{
    if records.len() == 0 {
        None
    } else if record_answers(records[0], query_name) {
        Some(0)
    } else {
        match first_answer(records.drop_first(), query_name) {
            Some(i) => Some(i + 1),
            None => None,
        }
    }
}

/// The address of a name: the value of the first matching `A` record, for a
/// name under the suffix; `None` when the name is outside the suffix, no
/// record matches, or the first match does not hold an IPv4 address.
pub open spec fn resolve_a_spec(records: Seq<DnsRecord>, qname: Seq<char>, suffix: Seq<char>) -> Option<
    Seq<u8>,
> {
    let query_name = normalize_name_spec(qname);
    if !has_suffix(query_name, seq!['.'] + normalize_suffix_spec(suffix)) {
        None
    } else {
        match first_answer(records, query_name) {
            None => None,
            Some(i) => ipv4_parse(records[i].value@),
        }
    }
}

/// `o` with `d` added to the index it holds.
pub open spec fn shift_index(o: Option<int>, d: int) -> Option<int> {
    match o {
        Some(k) => Some(k + d),
        None => None,
    }
}

proof fn lemma_first_answer_skip(records: Seq<DnsRecord>, query_name: Seq<char>, i: int)
    requires
        0 <= i <= records.len(),
        forall|j: int| 0 <= j < i ==> !record_answers(#[trigger] records[j], query_name),
    ensures
        first_answer(records, query_name) == shift_index(first_answer(records.skip(i), query_name), i),
    decreases i,
{
    if i > 0 {
        let rest = records.drop_first();
        assert forall|j: int| 0 <= j < i - 1 implies !record_answers(#[trigger] rest[j], query_name) by {
            assert(rest[j] == records[j + 1]);
        }
        lemma_first_answer_skip(rest, query_name, i - 1);
        assert(rest.skip(i - 1) =~= records.skip(i));
        assert(!record_answers(records[0], query_name));
    } else {
        assert(records.skip(0) =~= records);
    }
}

proof fn lemma_first_answer_none(records: Seq<DnsRecord>, query_name: Seq<char>)
    requires
        forall|j: int| 0 <= j < records.len() ==> !record_answers(#[trigger] records[j], query_name),
    ensures
        first_answer(records, query_name) is None,
    decreases records.len(),
{
    if records.len() > 0 {
        let rest = records.drop_first();
        assert forall|j: int| 0 <= j < rest.len() implies !record_answers(#[trigger] rest[j], query_name) by {
            assert(rest[j] == records[j + 1]);
        }
        lemma_first_answer_none(rest, query_name);
        assert(!record_answers(records[0], query_name));
    }
}

/// Resolves an A query against the records.
#[verifier::loop_isolation(false)]
pub fn resolve_a(records: &[DnsRecord], qname: &str, suffix: &str) -> (out: Option<Ipv4Address>)
    ensures
        match resolve_a_spec(records@, qname@, suffix@) {
            Some(o) => out matches Some(a) && a.0@ == o,
            None => out is None,
        },
{
    let query_name = normalize_name(qname);
    let normalized_suffix = normalize_suffix(suffix);
    let mut dotted: Vec<char> = Vec::new();
    dotted.push('.');
    let mut k: usize = 0;
    while k < normalized_suffix.len()
        invariant
            k <= normalized_suffix.len(),
            dotted@ == seq!['.'] + normalized_suffix@.take(k as int),
        decreases normalized_suffix.len() - k,
    {
        dotted.push(normalized_suffix[k]);
        k = k + 1;
        proof {
            assert(dotted@ =~= seq!['.'] + normalized_suffix@.take(k as int));
        }
    }
    proof {
        assert(normalized_suffix@.take(normalized_suffix@.len() as int) =~= normalized_suffix@);
    }
    if !ends_with(query_name.as_slice(), dotted.as_slice()) {
        return None;
    }
    let mut i: usize = 0;
    while i < records.len()
        invariant
            i <= records.len(),
            query_name@ == normalize_name_spec(qname@),
            forall|j: int| 0 <= j < i ==> !record_answers(#[trigger] records@[j], query_name@),
        decreases records.len() - i,
    {
        let record = &records[i];
        let record_type = chars_of(record.record_type.as_str());
        let is_a = record_type.len() == 1 && (record_type[0] == 'A' || record_type[0] == 'a');
        proof {
            if record_type@.len() == 1 {
                assert(record.record_type@ == seq![record_type@[0]]);
            }
        }
        if is_a {
            let name = normalize_name(record.name.as_str());
            if chars_eq(name.as_slice(), query_name.as_slice()) {
                proof {
                    lemma_first_answer_skip(records@, query_name@, i as int);
                    assert(records@.skip(i as int)[0] == records@[i as int]);
                }
                return parse_ipv4(record.value.as_str());
            }
        }
        i = i + 1;
    }
    proof {
        lemma_first_answer_none(records@, query_name@);
    }
    None
}

/// A parsed DNS question.
#[derive(Clone, Debug, PartialEq, Eq)]
pub struct DnsQuery {
    pub id: u16,
    pub qname: String,
    pub qtype: u16,
    pub qclass: u16,
    pub question_end: usize,
}

/// A big-endian 16-bit value.
pub open spec fn be16(hi: u8, lo: u8) -> u16 {
    ((hi as int) * 256 + (lo as int)) as u16
}

/// The labels of the question name starting at `offset`, with the offset just
/// past the terminating zero byte.
pub open spec fn parse_labels(p: Seq<u8>, offset: nat) -> Result<(Seq<Seq<char>>, nat), DnsFault>
    decreases p.len() - offset,
{
    if offset >= p.len() {
        Err(DnsFault::NameTruncated)
    } else {
        let len = p[offset as int];
        if len == 0 {
            Ok((Seq::empty(), offset + 1))
        } else if len >= 64 {
            Err(DnsFault::CompressedName)
        } else if offset + 1 + len > p.len() {
            Err(DnsFault::InvalidLabelLength)
        } else {
            let label = p.subrange(offset + 1 as int, offset + 1 + len as int);
            if !valid_utf8(label) {
                Err(DnsFault::InvalidLabelText(utf8_error_text(label)))
            } else {
                match parse_labels(p, (offset + 1 + len) as nat) {
                    Err(e) => Err(e),
                    Ok((rest, end)) => Ok((seq![decode_utf8(label)] + rest, end)),
                }
            }
        }
    }
}

/// The question name ends past where it starts and within the packet.
pub proof fn lemma_parse_labels_end(p: Seq<u8>, offset: nat)
    requires
        parse_labels(p, offset) is Ok,
    ensures
        offset < parse_labels(p, offset)->Ok_0.1 <= p.len(),
    decreases p.len() - offset,
{
    let len = p[offset as int];
    if len != 0 {
        lemma_parse_labels_end(p, (offset + 1 + len) as nat);
    }
}

/// What `parse_query` yields: id, name, type, class and the end of the
/// question, or the error.
pub open spec fn parse_query_spec(p: Seq<u8>) -> Result<(u16, Seq<char>, u16, u16, nat), DnsFault> {
    if p.len() < 12 {
        Err(DnsFault::PacketTooShort)
    } else if be16(p[4], p[5]) != 1 {
        Err(DnsFault::UnsupportedQuestionCount)
    } else {
        match parse_labels(p, 12) {
            Err(e) => Err(e),
            Ok((labels, offset)) => if offset + 4 > p.len() {
                Err(DnsFault::TypeClassTruncated)
            } else {
                Ok(
                    (
                        be16(p[0], p[1]),
                        join_with(labels, seq!['.']),
                        be16(p[offset as int], p[offset + 1 as int]),
                        be16(p[offset + 2 as int], p[offset + 3 as int]),
                        offset + 4,
                    ),
                )
            },
        }
    }
}

fn read_be16(hi: u8, lo: u8) -> (out: u16)
    ensures
        out == be16(hi, lo),
{
    (hi as u16) * 256 + (lo as u16)
}

fn join_labels(labels: &Vec<String>) -> (out: String)
    ensures
        out@ == join_with(labels@.map_values(|l: String| l@), seq!['.']),
{
    let ghost parts = labels@.map_values(|l: String| l@);
    let mut out = String::new();
    let mut i: usize = 0;
    while i < labels.len()
        invariant
            i <= labels.len(),
            parts == labels@.map_values(|l: String| l@),
            out@ == join_with(parts.take(i as int), seq!['.']),
        decreases labels.len() - i,
    {
        if i > 0 {
            crate::text::push_char(&mut out, '.');
        }
        crate::text::push_str(&mut out, labels[i].as_str());
        proof {
            assert(parts.take(i + 1).drop_last() =~= parts.take(i as int));
            if i == 0 {
                assert(out@ =~= join_with(parts.take(1), seq!['.']));
            }
        }
        i = i + 1;
    }
    proof {
        assert(parts.take(labels@.len() as int) =~= parts);
    }
    out
}

/// Reads the single question of a DNS request.
pub fn parse_query(packet: &[u8]) -> (out: Result<DnsQuery, DnsError>)
    ensures
        match parse_query_spec(packet@) {
            Ok((id, qname, qtype, qclass, end)) => out matches Ok(q) && q.id == id && q.qname@
                == qname && q.qtype == qtype && q.qclass == qclass && q.question_end == end,
            Err(f) => out matches Err(e) && e@ == f,
        },
{
    if packet.len() < 12 {
        return Err(DnsError::PacketTooShort);
    }
    let qdcount = read_be16(packet[4], packet[5]);
    if qdcount != 1 {
        return Err(DnsError::UnsupportedQuestionCount);
    }
    let id = read_be16(packet[0], packet[1]);
    let mut offset: usize = 12;
    let mut labels: Vec<String> = Vec::new();
    loop
        invariant
            12 <= offset,
            packet@.len() >= 12,
            be16(packet@[4], packet@[5]) == 1,
            match parse_labels(packet@, 12) {
                Err(e) => parse_labels(packet@, offset as nat) == Err::<(Seq<Seq<char>>, nat), DnsFault>(e),
                Ok((all, end)) => parse_labels(packet@, offset as nat) matches Ok((rest, end2)) && end2
                    == end && all == labels@.map_values(|l: String| l@) + rest,
            },
        ensures
            offset < packet@.len(),
            packet@[offset as int] == 0,
            parse_labels(packet@, 12) matches Ok((all, end)) && end == offset + 1 && all == labels@.map_values(|l: String| l@),
        decreases packet@.len() - offset,
    {
        if offset >= packet.len() {
            return Err(DnsError::NameTruncated);
        }
        let len: usize = packet[offset] as usize;
        if len == 0 {
            proof {
                let (all, end) = parse_labels(packet@, 12)->Ok_0;
                assert(all =~= labels@.map_values(|l: String| l@));
            }
            break;
        }
        if len >= 64 {
            return Err(DnsError::CompressedName);
        }
        if len > packet.len() - offset - 1 {
            return Err(DnsError::InvalidLabelLength);
        }
        let mut label_bytes: Vec<u8> = Vec::new();
        let mut k: usize = offset + 1;
        let label_end: usize = offset + 1 + len;
        while k < label_end
            invariant
                offset + 1 <= k <= label_end,
                label_end == offset + 1 + len,
                label_end <= packet@.len(),
                label_bytes@ == packet@.subrange(offset + 1, k as int),
            decreases label_end - k,
        {
            label_bytes.push(packet[k]);
            k = k + 1;
            proof {
                assert(label_bytes@ =~= packet@.subrange(offset + 1, k as int));
            }
        }
        let label = match utf8_text(label_bytes.as_slice()) {
            Ok(text) => text,
            Err(msg) => return Err(DnsError::InvalidLabelText(msg)),
        };
        let ghost before = labels@.map_values(|l: String| l@);
        labels.push(label);
        proof {
            assert(labels@.map_values(|l: String| l@) =~= before.push(label@));
            let r = parse_labels(packet@, (offset + 1 + len) as nat);
            if let Ok((rest, end)) = r {
                assert(before + (seq![label@] + rest) =~= before.push(label@) + rest);
            }
        }
        offset = offset + 1 + len;
    }
    let name_end = offset + 1;
    if packet.len() - name_end < 4 {
        return Err(DnsError::TypeClassTruncated);
    }
    let qtype = read_be16(packet[name_end], packet[name_end + 1]);
    let qclass = read_be16(packet[name_end + 2], packet[name_end + 3]);
    Ok(DnsQuery { id, qname: join_labels(&labels), qtype, qclass, question_end: name_end + 4 })
}

/// The response bytes for a parsed query and its answer.
pub open spec fn response_bytes(
    request: Seq<u8>,
    id: u16,
    qtype: u16,
    question_end: nat,
    answer: Option<Seq<u8>>,
) -> Seq<u8> {
    let rcode: u8 = if qtype == TYPE_A {
        if answer is Some {
            0
        } else {
            3
        }
    } else {
        4
    };
    let header = seq![
        (id / 256) as u8,
        (id % 256) as u8,
        0x84u8,
        (0x80u8 + rcode) as u8,
        0u8,
        1u8,
        0u8,
        if answer is Some {
            1u8
        } else {
            0u8
        },
        0u8,
        0u8,
        0u8,
        0u8,
    ];
    let question = request.subrange(12, question_end as int);
    match answer {
        None => header + question,
        Some(o) => header + question + seq![0xC0u8, 0x0Cu8, 0u8, 1u8, 0u8, 1u8, 0u8, 0u8, 0u8, 30u8, 0u8, 4u8]
            + o,
    }
}

/// What `build_response` yields for a request.
pub open spec fn build_response_spec(request: Seq<u8>, records: Seq<DnsRecord>, suffix: Seq<char>) -> Result<
    Seq<u8>,
    DnsFault,
> {
    match parse_query_spec(request) {
        Err(e) => Err(e),
        Ok((id, qname, qtype, qclass, end)) => {
            let answer = if qtype == TYPE_A && qclass == CLASS_IN {
                resolve_a_spec(records, qname, suffix)
            } else {
                None
            };
            Ok(response_bytes(request, id, qtype, end, answer))
        },
    }
}

/// Answers a DNS request: an A answer from the records, NXDOMAIN for an A
/// query without one, NOTIMP for any other type.
pub fn build_response(request: &[u8], records: &[DnsRecord], suffix: &str) -> (out: Result<
    Vec<u8>,
    DnsError,
>)
    ensures
        match build_response_spec(request@, records@, suffix@) {
            Ok(bytes) => out matches Ok(r) && r@ == bytes,
            Err(f) => out matches Err(e) && e@ == f,
        },
{
    let query = parse_query(request)?;
    proof {
        assert(parse_query_spec(request@) is Ok);
        lemma_parse_labels_end(request@, 12);
    }
    let answer = if query.qtype == TYPE_A && query.qclass == CLASS_IN {
        resolve_a(records, query.qname.as_str(), suffix)
    } else {
        None
    };
    let rcode: u8 = if query.qtype == TYPE_A {
        if answer.is_some() {
            0
        } else {
            3
        }
    } else {
        4
    };
    let mut response: Vec<u8> = Vec::with_capacity(MAX_DNS_PACKET_SIZE);
    response.push((query.id / 256) as u8);
    response.push((query.id % 256) as u8);
    response.push(0x84u8);
    response.push(0x80u8 + rcode);
    response.push(0u8);
    response.push(1u8);
    response.push(0u8);
    response.push(if answer.is_some() { 1u8 } else { 0u8 });
    response.push(0u8);
    response.push(0u8);
    response.push(0u8);
    response.push(0u8);
    let ghost header = response@;
    let mut i: usize = 12;
    while i < query.question_end
        invariant
            12 <= i <= query.question_end <= request@.len(),
            response@ == header + request@.subrange(12, i as int),
        decreases query.question_end - i,
    {
        response.push(request[i]);
        i = i + 1;
        proof {
            assert(response@ =~= header + request@.subrange(12, i as int));
        }
    }
    match answer {
        Some(address) => {
            let tail: [u8; 12] = [0xC0u8, 0x0Cu8, 0u8, 1u8, 0u8, 1u8, 0u8, 0u8, 0u8, 30u8, 0u8, 4u8];
            append_bytes(&mut response, &tail);
            let octets = address.octets();
            append_bytes(&mut response, &octets);
        },
        None => {},
    }
    proof {
        let ghost answer_view: Option<Seq<u8>> = match answer {
            Some(a) => Some(a.0@),
            None => None,
        };
        assert(response@ =~= response_bytes(request@, query.id, query.qtype, query.question_end as nat, answer_view));
    }
    Ok(response)
}

} // verus!

verus! {

/// What a response says of a query that parses, for any records and suffix.
/// The response keeps the query's id and is marked as an authoritative
/// answer. An A/IN query whose name resolves gets rcode 0 (NOERROR) and one
/// answer, which ends the response with the resolved address. NXDOMAIN
/// (rcode 3) comes only for an A query without an answer, and then no answer
/// is carried. Any other query type gets NOTIMP (rcode 4) and no answer.
pub proof fn lemma_response_codes(request: Seq<u8>, records: Seq<DnsRecord>, suffix: Seq<char>)
    requires
        parse_query_spec(request) is Ok,
    ensures
        ({
            let q = parse_query_spec(request)->Ok_0;
            let resolved = resolve_a_spec(records, q.1, suffix);
            let r = build_response_spec(request, records, suffix);
            &&& r is Ok
            &&& r->Ok_0.len() >= 12
            &&& r->Ok_0[0] as int * 256 + r->Ok_0[1] as int == q.0 as int
            &&& r->Ok_0[2] == 0x84u8
            &&& (q.2 == TYPE_A && q.3 == CLASS_IN && resolved is Some) ==> (r->Ok_0[3] % 16 == 0
                && r->Ok_0[7] == 1 && r->Ok_0.skip(r->Ok_0.len() - resolved->Some_0.len())
                == resolved->Some_0)
            &&& r->Ok_0[3] % 16 == 3 ==> (q.2 == TYPE_A && !(q.3 == CLASS_IN && resolved is Some)
                && r->Ok_0[7] == 0)
            &&& q.2 != TYPE_A ==> (r->Ok_0[3] % 16 == 4 && r->Ok_0[7] == 0)
        }),
{
    let q = parse_query_spec(request)->Ok_0;
    let (labels, offset) = parse_labels(request, 12)->Ok_0;
    lemma_parse_labels_end(request, 12);
    let id = q.0;
    assert((id / 256) as u8 as int * 256 + (id % 256) as u8 as int == id as int);
}

} // verus!
