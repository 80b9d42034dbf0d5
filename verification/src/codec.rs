//! The wire codec. Messages are parsed and written by `simple_dns`; this
//! module moves between its packets and the library's plain messages.

use vstd::prelude::*;
use simple_dns::rdata::{RData, A, AAAA, PTR, SRV, TXT};
use simple_dns::{
    CharacterString, Name, Packet, PacketFlag, ResourceRecord, CLASS, QCLASS, QTYPE, TYPE,
};
use crate::record::{
    DataView, EntryView, Inquiry, InquiryView, Message, MessageView, Record, RecordData,
    RecordView, TxtEntry,
};
use crate::text::first_of;
use crate::types::{Query, QueryType, QueryView};

verus! {

/// A DNS packet of `simple_dns`.
#[verifier::external_type_specification]
#[verifier::external_body]
pub struct ExPacket<'a>(simple_dns::Packet<'a>);

/// A resource record of `simple_dns`.
#[verifier::external_type_specification]
#[verifier::external_body]
pub struct ExResourceRecord<'a>(simple_dns::ResourceRecord<'a>);

/// A question of `simple_dns`.
#[verifier::external_type_specification]
#[verifier::external_body]
pub struct ExQuestion<'a>(simple_dns::Question<'a>);

/// What a packet holds, read as plain values: the response flag and, for
/// each question and each record of the answer and additional sections, what
/// [`question_reading`] and [`record_reading`] give.
pub uninterp spec fn packet_reading(p: Packet<'static>) -> MessageView;

/// What a resource record holds, read as plain values: its name as text, whether its
/// class is IN, its lifetime, and its data where that is PTR, SRV, TXT, A or
/// AAAA.
pub uninterp spec fn record_reading(r: ResourceRecord<'static>) -> RecordView;

/// What a question holds, read as plain values: its name as text, its type
/// where that is one of the five, and the unicast-response bit.
pub uninterp spec fn question_reading(q: simple_dns::Question<'static>) -> InquiryView;

/// What `Packet::parse` makes of the given bytes, read as plain values; none
/// where it reports an error.
pub uninterp spec fn parsed_message(bytes: Seq<u8>) -> Option<MessageView>;

/// Parses a datagram.
///
/// Calls `Packet::parse`, which depends on the bytes alone.
#[verifier::external_body]
fn parse_packet<'a>(bytes: &'a [u8]) -> (r: Option<Packet<'a>>)
    ensures
        match r {
            Some(p) => parsed_message(bytes@) == Some(packet_reading(p)),
            None => parsed_message(bytes@) is None,
        },
{
    Packet::parse(bytes).ok()
}

/// Whether a packet is a response.
///
/// Calls `Packet::has_flags` with the RESPONSE flag.
#[verifier::external_body]
fn is_response(p: &Packet<'_>) -> (r: bool)
    ensures
        r == packet_reading(*p).response,
{
    p.has_flags(PacketFlag::RESPONSE)
}

/// The questions of a packet, in order.
#[verifier::external_body]
fn questions_of<'b, 'a>(p: &'b Packet<'a>) -> (r: &'b Vec<simple_dns::Question<'a>>)
    ensures
        r@.len() == packet_reading(*p).questions.len(),
        forall|i: int|
            0 <= i < r@.len() ==> question_reading(#[trigger] r@[i]) == packet_reading(
                *p,
            ).questions[i],
{
    &p.questions
}

/// The answer records of a packet, in order.
#[verifier::external_body]
fn answers_of<'b, 'a>(p: &'b Packet<'a>) -> (r: &'b Vec<ResourceRecord<'a>>)
    ensures
        r@.len() == packet_reading(*p).answers.len(),
        forall|i: int|
            0 <= i < r@.len() ==> record_reading(#[trigger] r@[i]) == packet_reading(*p).answers[i],
{
    &p.answers
}

/// The additional records of a packet, in order.
#[verifier::external_body]
fn additional_of<'b, 'a>(p: &'b Packet<'a>) -> (r: &'b Vec<ResourceRecord<'a>>)
    ensures
        r@.len() == packet_reading(*p).additional_records.len(),
        forall|i: int|
            0 <= i < r@.len() ==> record_reading(#[trigger] r@[i]) == packet_reading(
                *p,
            ).additional_records[i],
{
    &p.additional_records
}

/// Reads a question as plain values.
///
/// The name is what `Name`'s `Display` writes; the type is kept where
/// it is `QTYPE::TYPE` of PTR, SRV, TXT, A or AAAA.
#[verifier::external_body]
fn question_of(q: &simple_dns::Question<'_>) -> (r: Inquiry)
    ensures
        r@ == question_reading(*q),
{
    let qtype = match q.qtype {
        QTYPE::TYPE(TYPE::PTR) => Some(QueryType::PTR),
        QTYPE::TYPE(TYPE::SRV) => Some(QueryType::SRV),
        QTYPE::TYPE(TYPE::TXT) => Some(QueryType::TXT),
        QTYPE::TYPE(TYPE::A) => Some(QueryType::A),
        QTYPE::TYPE(TYPE::AAAA) => Some(QueryType::AAAA),
        _ => None,
    };
    Inquiry { qname: q.qname.to_string(), qtype, unicast_response: q.unicast_response }
}

/// Reads the data of a record as plain values.
///
/// Names are what `Name`'s `Display` writes; the entries of a TXT record are
/// what `TXT::iter_raw` yields, in its order.
#[verifier::external_body]
fn record_data_of(r: &ResourceRecord<'_>) -> (d: RecordData)
    ensures
        d@ == record_reading(*r).data,
{
    match &r.rdata {
        RData::PTR(p) => RecordData::PTR(p.0.to_string()),
        RData::SRV(s) => {
            let target = s.target.to_string();
            RecordData::SRV { priority: s.priority, weight: s.weight, port: s.port, target }
        },
        RData::TXT(t) => {
            let raw = t.iter_raw();
            let entries = raw.map(|(k, v)| TxtEntry { key: k.to_vec(), value: v.map(|v| v.to_vec()) });
            RecordData::TXT { entries: entries.collect() }
        },
        RData::A(a) => RecordData::A { address: a.address },
        RData::AAAA(a) => RecordData::AAAA { address: a.address },
        _ => RecordData::Other,
    }
}

/// Reads the name, class and lifetime of a record.
///
/// The name is what `Name`'s `Display` writes.
#[verifier::external_body]
fn record_head_of(r: &ResourceRecord<'_>) -> (h: (String, bool, u32))
    ensures
        h.0@ == record_reading(*r).name,
        h.1 == record_reading(*r).class_in,
        h.2 == record_reading(*r).ttl,
{
    (r.name.to_string(), matches!(r.class, CLASS::IN), r.ttl)
}

/// Reads a record of a packet as plain values.
fn record_of(r: &ResourceRecord<'_>) -> (out: Record)
    ensures
        out@ == record_reading(*r),
{
    let (name, class_in, ttl) = record_head_of(r);
    let data = record_data_of(r);
    Record { name, class_in, ttl, data }
}

/// Reads the records of a section as plain values.
fn records_of(section: &Vec<ResourceRecord<'_>>) -> (out: Vec<Record>)
    ensures
        out@.len() == section@.len(),
        forall|i: int| 0 <= i < out@.len() ==> (#[trigger] out@[i])@ == record_reading(section@[i]),
{
    let mut out: Vec<Record> = Vec::new();
    let mut i: usize = 0;
    while i < section.len()
        invariant
            i <= section.len(),
            out@.len() == i,
            forall|j: int| 0 <= j < i ==> (#[trigger] out@[j])@ == record_reading(section@[j]),
        decreases section.len() - i,
    {
        out.push(record_of(&section[i]));
        i += 1;
    }
    out
}

/// Parses a datagram into a message.
///
/// Gives nothing where the bytes are no DNS packet.
pub fn decode(bytes: &[u8]) -> (r: Option<Message>)
    ensures
        match r {
            Some(m) => parsed_message(bytes@) == Some(m@),
            None => parsed_message(bytes@) is None,
        },
{
    match parse_packet(bytes) {
        None => None,
        Some(p) => {
            let response = is_response(&p);
            let qs = questions_of(&p);
            let mut questions: Vec<Inquiry> = Vec::new();
            let mut i: usize = 0;
            while i < qs.len()
                invariant
                    i <= qs.len(),
                    questions@.len() == i,
                    forall|j: int|
                        0 <= j < i ==> (#[trigger] questions@[j])@ == question_reading(qs@[j]),
                decreases qs.len() - i,
            {
                questions.push(question_of(&qs[i]));
                i += 1;
            }
            let answers = records_of(answers_of(&p));
            let additional_records = records_of(additional_of(&p));
            let m = Message { response, questions, answers, additional_records };
            assert(m@.questions =~= packet_reading(p).questions);
            assert(m@.answers =~= packet_reading(p).answers);
            assert(m@.additional_records =~= packet_reading(p).additional_records);
            Some(m)
        },
    }
}

/// Whether a packet holds nothing beyond its reading: its header is that
/// of `Packet::new_query(0)` or `Packet::new_reply(0)`, it has no name-server
/// section, its questions ask in class IN for one of the five types, and
/// each of its records is as [`plain_record`] says. Such a packet is
/// determined by its reading.
pub uninterp spec fn plain_packet(p: Packet<'static>) -> bool;

/// Whether a record holds nothing beyond its reading: its class is IN, it
/// is no cache-flush record, its data is PTR, SRV, TXT, A or AAAA, and the
/// labels of its names are the dot-separated pieces of their text.
pub uninterp spec fn plain_record(r: ResourceRecord<'static>) -> bool;

/// The text that `Name`'s `Display` writes for `Name::new_unchecked` of the
/// given text.
pub uninterp spec fn name_text(name: Seq<char>) -> Seq<char>;

/// The bytes that `Packet::write_to` writes for the plain packet with the
/// given reading; none where it reports an error.
pub uninterp spec fn wire_format(m: MessageView) -> Option<Seq<u8>>;

/// The byte `=`.
pub const EQUALS_SIGN: u8 = 61u8;

/// The longest character-string a TXT record can hold, in bytes.
pub const MAX_TXT_STRING: usize = 255;

/// A character-string split at its first `=`: the key before it and the
/// value after it; no value where there is no `=`.
pub open spec fn split_entry(s: Seq<u8>) -> EntryView {
    let i = first_of(s, EQUALS_SIGN);
    if i < s.len() {
        EntryView { key: s.take(i), value: Some(s.skip(i + 1)) }
    } else {
        EntryView { key: s, value: None }
    }
}

/// The character-string of an entry: the key, and `=` and the value where
/// there is one.
pub open spec fn join_entry(e: EntryView) -> Seq<u8> {
    match e.value {
        Some(v) => e.key + seq![EQUALS_SIGN] + v,
        None => e.key,
    }
}

/// The name as the codec stores it.
///
/// Calls `Name::new_unchecked` and writes the name with its `Display`.
#[verifier::external_body]
fn canonical_name(name: &str) -> (r: String)
    ensures
        r@ == name_text(name@),
{
    Name::new_unchecked(name).to_string()
}

impl Query {
    /// The fingerprint of a query for `name`: the name as the codec stores
    /// it, so that two spellings of one name give one fingerprint, and the
    /// record type.
    pub fn new(name: &str, qtype: QueryType) -> (r: Query)
        ensures
            r@ == (QueryView { qname: name_text(name@), qtype }),
    {
        Query { qname: canonical_name(name), qtype }
    }
}

/// An empty query packet.
///
/// Calls `Packet::new_query` with id 0.
#[verifier::external_body]
fn new_query_packet() -> (p: Packet<'static>)
    ensures
        plain_packet(p),
        packet_reading(p) == (MessageView {
            response: false,
            questions: Seq::empty(),
            answers: Seq::empty(),
            additional_records: Seq::empty(),
        }),
{
    Packet::new_query(0)
}

/// An empty reply packet.
///
/// Calls `Packet::new_reply` with id 0.
#[verifier::external_body]
fn new_reply_packet() -> (p: Packet<'static>)
    ensures
        plain_packet(p),
        packet_reading(p) == (MessageView {
            response: true,
            questions: Seq::empty(),
            answers: Seq::empty(),
            additional_records: Seq::empty(),
        }),
{
    Packet::new_reply(0)
}

/// Appends a question of class IN to a packet.
///
/// Calls `Question::new` on `Name::new_unchecked(name)` and pushes the
/// result onto the packet's questions.
#[verifier::external_body]
fn push_question(p: &mut Packet<'static>, name: &str, qtype: QueryType, unicast: bool)
    ensures
        plain_packet(*final(p)) == plain_packet(*old(p)),
        packet_reading(*final(p)) == (MessageView {
            response: packet_reading(*old(p)).response,
            questions: packet_reading(*old(p)).questions.push(
                InquiryView {
                    qname: name_text(name@),
                    qtype: Some(qtype),
                    unicast_response: unicast,
                },
            ),
            answers: packet_reading(*old(p)).answers,
            additional_records: packet_reading(*old(p)).additional_records,
        }),
{
    let ty = match qtype {
        QueryType::PTR => TYPE::PTR,
        QueryType::SRV => TYPE::SRV,
        QueryType::TXT => TYPE::TXT,
        QueryType::A => TYPE::A,
        QueryType::AAAA => TYPE::AAAA,
    };
    let qname = Name::new_unchecked(name).into_owned();
    let qclass = QCLASS::CLASS(CLASS::IN);
    p.questions.push(simple_dns::Question::new(qname, QTYPE::TYPE(ty), qclass, unicast));
}

/// Appends a record to the answers of a packet.
#[verifier::external_body]
fn push_answer(p: &mut Packet<'static>, r: ResourceRecord<'static>)
    ensures
        plain_packet(*final(p)) == (plain_packet(*old(p)) && plain_record(r)),
        packet_reading(*final(p)) == (MessageView {
            response: packet_reading(*old(p)).response,
            questions: packet_reading(*old(p)).questions,
            answers: packet_reading(*old(p)).answers.push(record_reading(r)),
            additional_records: packet_reading(*old(p)).additional_records,
        }),
{
    p.answers.push(r);
}

/// Appends a record to the additional records of a packet.
#[verifier::external_body]
fn push_additional(p: &mut Packet<'static>, r: ResourceRecord<'static>)
    ensures
        plain_packet(*final(p)) == (plain_packet(*old(p)) && plain_record(r)),
        packet_reading(*final(p)) == (MessageView {
            response: packet_reading(*old(p)).response,
            questions: packet_reading(*old(p)).questions,
            answers: packet_reading(*old(p)).answers,
            additional_records: packet_reading(*old(p)).additional_records.push(record_reading(r)),
        }),
{
    p.additional_records.push(r);
}

/// A PTR record of class IN.
///
/// Calls `ResourceRecord::new`; both names come from `Name::new_unchecked`.
#[verifier::external_body]
fn ptr_record(name: &str, ttl: u32, target: &str) -> (r: ResourceRecord<'static>)
    ensures
        plain_record(r),
        record_reading(r) == (RecordView {
            name: name_text(name@),
            class_in: true,
            ttl,
            data: DataView::PTR(name_text(target@)),
        }),
{
    let data = RData::PTR(PTR(Name::new_unchecked(target).into_owned()));
    ResourceRecord::new(Name::new_unchecked(name).into_owned(), CLASS::IN, ttl, data)
}

/// An SRV record of class IN.
///
/// Calls `ResourceRecord::new`; both names come from `Name::new_unchecked`.
#[verifier::external_body]
fn srv_record(name: &str, ttl: u32, priority: u16, weight: u16, port: u16, target: &str) -> (r:
    ResourceRecord<'static>)
    ensures
        plain_record(r),
        record_reading(r) == (RecordView {
            name: name_text(name@),
            class_in: true,
            ttl,
            data: DataView::SRV { priority, weight, port, target: name_text(target@) },
        }),
{
    let target = Name::new_unchecked(target).into_owned();
    let data = RData::SRV(SRV { priority, weight, port, target });
    ResourceRecord::new(Name::new_unchecked(name).into_owned(), CLASS::IN, ttl, data)
}

/// An A record of class IN.
///
/// Calls `ResourceRecord::new`; the name comes from `Name::new_unchecked`.
#[verifier::external_body]
fn a_record(name: &str, ttl: u32, address: u32) -> (r: ResourceRecord<'static>)
    ensures
        plain_record(r),
        record_reading(r) == (RecordView {
            name: name_text(name@),
            class_in: true,
            ttl,
            data: DataView::A { address },
        }),
{
    let data = RData::A(A { address });
    ResourceRecord::new(Name::new_unchecked(name).into_owned(), CLASS::IN, ttl, data)
}

/// An AAAA record of class IN.
///
/// Calls `ResourceRecord::new`; the name comes from `Name::new_unchecked`.
#[verifier::external_body]
fn aaaa_record(name: &str, ttl: u32, address: u128) -> (r: ResourceRecord<'static>)
    ensures
        plain_record(r),
        record_reading(r) == (RecordView {
            name: name_text(name@),
            class_in: true,
            ttl,
            data: DataView::AAAA { address },
        }),
{
    let data = RData::AAAA(AAAA { address });
    ResourceRecord::new(Name::new_unchecked(name).into_owned(), CLASS::IN, ttl, data)
}

/// Whether each of the strings is at most 255 bytes long.
pub open spec fn all_fit(strings: Seq<Vec<u8>>) -> bool {
    forall|i: int| 0 <= i < strings.len() ==> (#[trigger] strings[i])@.len() <= MAX_TXT_STRING
}

/// A TXT record of class IN that holds the given character-strings, in order.
///
/// Calls `CharacterString::new` on each string, which refuses one of more
/// than 255 bytes, and `TXT::add_char_string`; `TXT::iter_raw` later splits
/// each string at its first `=`.
#[verifier::external_body]
fn txt_record(name: &str, ttl: u32, strings: &Vec<Vec<u8>>) -> (r: Option<ResourceRecord<'static>>)
    ensures
        (r is Some) == all_fit(strings@),
        r matches Some(rr) ==> plain_record(rr) && record_reading(rr) == (RecordView {
            name: name_text(name@),
            class_in: true,
            ttl,
            data: DataView::TXT {
                entries: Seq::new(strings@.len(), |i: int| split_entry(strings@[i]@)),
            },
        }),
{
    let mut txt = TXT::new();
    for s in strings {
        txt.add_char_string(CharacterString::new(s).ok()?.into_owned());
    }
    let data = RData::TXT(txt);
    Some(ResourceRecord::new(Name::new_unchecked(name).into_owned(), CLASS::IN, ttl, data))
}

/// The wire form of a plain packet.
///
/// Calls `Packet::write_to` on an empty vector.
#[verifier::external_body]
fn write_packet(p: &Packet<'static>) -> (r: Option<Vec<u8>>)
    requires
        plain_packet(*p),
    ensures
        match r {
            Some(b) => wire_format(packet_reading(*p)) == Some(b@),
            None => wire_format(packet_reading(*p)) is None,
        },
{
    let mut out = Vec::new();
    p.write_to(&mut out).ok().map(|_| out)
}

/// The entry as the codec stores it: joined into one character-string and
/// split again at the first `=`.
pub open spec fn canon_entry(e: EntryView) -> EntryView {
    split_entry(join_entry(e))
}

/// The data of a record as the codec stores it.
pub open spec fn canon_data(d: DataView) -> DataView {
    match d {
        DataView::PTR(target) => DataView::PTR(name_text(target)),
        DataView::SRV { priority, weight, port, target } => DataView::SRV {
            priority,
            weight,
            port,
            target: name_text(target),
        },
        DataView::TXT { entries } => DataView::TXT {
            entries: Seq::new(entries.len(), |i: int| canon_entry(entries[i])),
        },
        DataView::A { address } => DataView::A { address },
        DataView::AAAA { address } => DataView::AAAA { address },
        DataView::Other => DataView::Other,
    }
}

/// The record as the codec stores it.
pub open spec fn canon_record(r: RecordView) -> RecordView {
    RecordView { name: name_text(r.name), class_in: r.class_in, ttl: r.ttl, data: canon_data(r.data) }
}

/// The question as the codec stores it.
pub open spec fn canon_question(q: InquiryView) -> InquiryView {
    InquiryView { qname: name_text(q.qname), qtype: q.qtype, unicast_response: q.unicast_response }
}

/// The message as the codec stores it.
pub open spec fn canon_message(m: MessageView) -> MessageView {
    MessageView {
        response: m.response,
        questions: Seq::new(m.questions.len(), |i: int| canon_question(m.questions[i])),
        answers: Seq::new(m.answers.len(), |i: int| canon_record(m.answers[i])),
        additional_records: Seq::new(
            m.additional_records.len(),
            |i: int| canon_record(m.additional_records[i]),
        ),
    }
}

/// Whether a record can be written: its class is IN, its data is one of the
/// five kinds, and each string of a TXT record is at most 255 bytes long.
pub open spec fn writable_record(r: RecordView) -> bool {
    &&& r.class_in
    &&& r.data != DataView::Other
    &&& r.data matches DataView::TXT { entries } ==> forall|i: int|
        0 <= i < entries.len() ==> join_entry(#[trigger] entries[i]).len() <= MAX_TXT_STRING
}

/// Whether a message can be written: each question asks for one of the five
/// types and each record is writable.
pub open spec fn writable(m: MessageView) -> bool {
    &&& forall|i: int| 0 <= i < m.questions.len() ==> (#[trigger] m.questions[i]).qtype is Some
    &&& forall|i: int| 0 <= i < m.answers.len() ==> writable_record(#[trigger] m.answers[i])
    &&& forall|i: int|
        0 <= i < m.additional_records.len() ==> writable_record(#[trigger] m.additional_records[i])
}

/// The wire form of a message; none where it cannot be written.
pub open spec fn encoding(m: MessageView) -> Option<Seq<u8>> {
    if writable(m) {
        wire_format(canon_message(m))
    } else {
        None
    }
}

/// The character-string of an entry.
///
/// Gives nothing where the string would not fit a `usize` length.
fn entry_string(e: &TxtEntry) -> (r: Vec<u8>)
    ensures
        r@ == join_entry(e@),
{
    let mut out: Vec<u8> = Vec::new();
    let mut i: usize = 0;
    while i < e.key.len()
        invariant
            i <= e.key.len(),
            out@ == e.key@.take(i as int),
        decreases e.key.len() - i,
    {
        out.push(e.key[i]);
        assert(e.key@.take(i as int + 1) =~= e.key@.take(i as int).push(e.key@[i as int]));
        i += 1;
    }
    assert(e.key@.take(e.key.len() as int) =~= e.key@);
    match &e.value {
        None => {},
        Some(v) => {
            out.push(EQUALS_SIGN);
            let mut j: usize = 0;
            while j < v.len()
                invariant
                    j <= v.len(),
                    out@ == e.key@ + seq![EQUALS_SIGN] + v@.take(j as int),
                decreases v.len() - j,
            {
                out.push(v[j]);
                assert(v@.take(j as int + 1) =~= v@.take(j as int).push(v@[j as int]));
                j += 1;
            }
            assert(v@.take(v.len() as int) =~= v@);
        },
    }
    out
}

/// Builds the outside record for a record of the library.
fn build_record(r: &Record) -> (out: Option<ResourceRecord<'static>>)
    ensures
        out is Some <==> writable_record(r@),
        out matches Some(rr) ==> plain_record(rr) && record_reading(rr) == canon_record(r@),
{
    if !r.class_in {
        return None;
    }
    match &r.data {
        RecordData::PTR(target) => Some(ptr_record(r.name.as_str(), r.ttl, target.as_str())),
        RecordData::SRV { priority, weight, port, target } => Some(
            srv_record(r.name.as_str(), r.ttl, *priority, *weight, *port, target.as_str()),
        ),
        RecordData::A { address } => Some(a_record(r.name.as_str(), r.ttl, *address)),
        RecordData::AAAA { address } => Some(aaaa_record(r.name.as_str(), r.ttl, *address)),
        RecordData::TXT { entries } => {
            let mut strings: Vec<Vec<u8>> = Vec::new();
            let mut i: usize = 0;
            while i < entries.len()
                invariant
                    i <= entries.len(),
                    strings@.len() == i,
                    forall|j: int| 0 <= j < i ==> (#[trigger] strings@[j])@ == join_entry(entries@[j]@),
                decreases entries.len() - i,
            {
                strings.push(entry_string(&entries[i]));
                i += 1;
            }
            let out = txt_record(r.name.as_str(), r.ttl, &strings);
            proof {
                let ev = r@.data->TXT_entries;
                assert(ev.len() == entries@.len());
                assert forall|j: int| 0 <= j < ev.len() implies join_entry(#[trigger] ev[j])
                    == strings@[j]@ by {
                    assert(ev[j] == entries@[j]@);
                }
                if out is Some {
                    assert forall|j: int| 0 <= j < ev.len() implies join_entry(
                        #[trigger] ev[j],
                    ).len() <= MAX_TXT_STRING by {
                        assert(strings@[j]@.len() <= MAX_TXT_STRING);
                    }
                    assert(Seq::new(strings@.len(), |i: int| split_entry(strings@[i]@))
                        =~= Seq::new(ev.len(), |i: int| canon_entry(ev[i])));
                } else {
                    let j = choose|j: int|
                        0 <= j < strings@.len() && !((#[trigger] strings@[j])@.len()
                            <= MAX_TXT_STRING);
                    assert(join_entry(ev[j]) == strings@[j]@);
                }
            }
            out
        },
        RecordData::Other => None,
    }
}

/// Writes a message in wire format.
///
/// Gives the bytes that the codec writes for the message, or nothing where
/// the message holds a question or a record that cannot be written.
pub fn encode(msg: &Message) -> (r: Option<Vec<u8>>)
    ensures
        match r {
            Some(b) => encoding(msg@) == Some(b@),
            None => encoding(msg@) is None,
        },
{
    let mut p = if msg.response {
        new_reply_packet()
    } else {
        new_query_packet()
    };
    let ghost target = canon_message(msg@);
    let mut i: usize = 0;
    assert(target.questions.take(0) =~= Seq::empty());
    while i < msg.questions.len()
        invariant
            i <= msg.questions.len(),
            target == canon_message(msg@),
            plain_packet(p),
            forall|j: int| 0 <= j < i ==> (#[trigger] msg@.questions[j]).qtype is Some,
            packet_reading(p) == (MessageView {
                response: msg.response,
                questions: target.questions.take(i as int),
                answers: Seq::empty(),
                additional_records: Seq::empty(),
            }),
        decreases msg.questions.len() - i,
    {
        let q = &msg.questions[i];
        assert(msg@.questions[i as int] == q@);
        match q.qtype {
            None => {
                return None;
            },
            Some(t) => {
                push_question(&mut p, q.qname.as_str(), t, q.unicast_response);
                assert(target.questions.take(i as int + 1) =~= target.questions.take(
                    i as int,
                ).push(canon_question(q@)));
            },
        }
        i += 1;
    }
    assert(target.questions.take(i as int) =~= target.questions);
    let mut a: usize = 0;
    assert(target.answers.take(0) =~= Seq::empty());
    while a < msg.answers.len()
        invariant
            a <= msg.answers.len(),
            target == canon_message(msg@),
            plain_packet(p),
            forall|j: int|
                0 <= j < msg@.questions.len() ==> (#[trigger] msg@.questions[j]).qtype is Some,
            forall|j: int| 0 <= j < a ==> writable_record(#[trigger] msg@.answers[j]),
            packet_reading(p) == (MessageView {
                response: msg.response,
                questions: target.questions,
                answers: target.answers.take(a as int),
                additional_records: Seq::empty(),
            }),
        decreases msg.answers.len() - a,
    {
        let r = &msg.answers[a];
        assert(msg@.answers[a as int] == r@);
        match build_record(r) {
            None => {
                return None;
            },
            Some(rr) => {
                push_answer(&mut p, rr);
                assert(target.answers.take(a as int + 1) =~= target.answers.take(a as int).push(
                    canon_record(r@),
                ));
            },
        }
        a += 1;
    }
    assert(target.answers.take(a as int) =~= target.answers);
    let mut b: usize = 0;
    assert(target.additional_records.take(0) =~= Seq::empty());
    while b < msg.additional_records.len()
        invariant
            b <= msg.additional_records.len(),
            target == canon_message(msg@),
            plain_packet(p),
            forall|j: int|
                0 <= j < msg@.questions.len() ==> (#[trigger] msg@.questions[j]).qtype is Some,
            forall|j: int| 0 <= j < msg@.answers.len() ==> writable_record(#[trigger] msg@.answers[j]),
            forall|j: int| 0 <= j < b ==> writable_record(#[trigger] msg@.additional_records[j]),
            packet_reading(p) == (MessageView {
                response: msg.response,
                questions: target.questions,
                answers: target.answers,
                additional_records: target.additional_records.take(b as int),
            }),
        decreases msg.additional_records.len() - b,
    {
        let r = &msg.additional_records[b];
        assert(msg@.additional_records[b as int] == r@);
        match build_record(r) {
            None => {
                return None;
            },
            Some(rr) => {
                push_additional(&mut p, rr);
                assert(target.additional_records.take(b as int + 1)
                    =~= target.additional_records.take(b as int).push(canon_record(r@)));
            },
        }
        b += 1;
    }
    assert(target.additional_records.take(b as int) =~= target.additional_records);
    assert(packet_reading(p) == target);
    write_packet(&p)
}

/// The largest datagram a node sends, in bytes.
pub const MAX_PACKET_SIZE: usize = 1472;

/// Whether the message can be written in at most `max_size` bytes.
pub open spec fn fits(m: MessageView, max_size: usize) -> bool {
    encoding(m) matches Some(b) && b.len() <= max_size
}

/// The message without its last additional record.
pub open spec fn without_last_additional(m: MessageView) -> MessageView {
    MessageView {
        response: m.response,
        questions: m.questions,
        answers: m.answers,
        additional_records: m.additional_records.drop_last(),
    }
}

/// The message without its last answer.
pub open spec fn without_last_answer(m: MessageView) -> MessageView {
    MessageView {
        response: m.response,
        questions: m.questions,
        answers: m.answers.drop_last(),
        additional_records: m.additional_records,
    }
}

/// The message trimmed until it fits: while it does not fit, the last
/// additional record goes, or, where none is left, the last answer. With
/// neither left the message stays as it is.
pub open spec fn reduced(m: MessageView, max_size: usize) -> MessageView
    decreases m.answers.len() + m.additional_records.len(),
{
    if fits(m, max_size) {
        m
    } else if m.additional_records.len() > 0 {
        reduced(without_last_additional(m), max_size)
    } else if m.answers.len() > 0 {
        reduced(without_last_answer(m), max_size)
    } else {
        m
    }
}

/// Trimming keeps the questions, and keeps of the answers and of the
/// additional records a prefix. An answer is dropped only once no additional
/// record is left. A message that fits stays as it is, and a trimmed
/// message that does not fit holds no record.
pub proof fn lemma_reduced_shape(m: MessageView, max_size: usize)
    ensures
        reduced(m, max_size).response == m.response,
        reduced(m, max_size).questions == m.questions,
        reduced(m, max_size).answers.is_prefix_of(m.answers),
        reduced(m, max_size).additional_records.is_prefix_of(m.additional_records),
        reduced(m, max_size).answers.len() < m.answers.len() ==> reduced(
            m,
            max_size,
        ).additional_records.len() == 0,
        fits(m, max_size) ==> reduced(m, max_size) == m,
        !fits(reduced(m, max_size), max_size) ==> reduced(m, max_size).answers.len() == 0
            && reduced(m, max_size).additional_records.len() == 0,
    decreases m.answers.len() + m.additional_records.len(),
{
    if fits(m, max_size) {
    } else if m.additional_records.len() > 0 {
        lemma_reduced_shape(without_last_additional(m), max_size);
    } else if m.answers.len() > 0 {
        lemma_reduced_shape(without_last_answer(m), max_size);
    }
}

/// A message that was trimmed by at least one record would not have fitted
/// with one record more: trimming stops at the first message that fits.
pub proof fn lemma_reduced_stops_early(m: MessageView, max_size: usize)
    ensures
        reduced(m, max_size).additional_records.len() < m.additional_records.len() ==> !fits(
            MessageView {
                response: m.response,
                questions: m.questions,
                answers: m.answers,
                additional_records: m.additional_records.take(
                    reduced(m, max_size).additional_records.len() as int + 1,
                ),
            },
            max_size,
        ),
    decreases m.answers.len() + m.additional_records.len(),
{
    if fits(m, max_size) {
    } else if m.additional_records.len() > 0 {
        let next = without_last_additional(m);
        lemma_reduced_shape(next, max_size);
        lemma_reduced_stops_early(next, max_size);
        let kept = reduced(m, max_size).additional_records.len() as int;
        if kept == next.additional_records.len() {
            assert(m.additional_records.take(kept + 1) =~= m.additional_records);
        } else {
            assert(next.additional_records.take(kept + 1) =~= m.additional_records.take(kept + 1));
        }
    }
}

/// Trims a message until its wire form is at most `max_size` bytes long.
///
/// Additional records are dropped first, from the back, then answers.
/// Returns whether the message fits in the end; where it does not, no record
/// is left in it.
pub fn reduce_packet_size(packet: &mut Message, max_size: usize) -> (r: bool)
    ensures
        final(packet)@ == reduced(old(packet)@, max_size),
        r == fits(final(packet)@, max_size),
        !r ==> final(packet)@.answers.len() == 0 && final(packet)@.additional_records.len() == 0,
{
    loop
        invariant
            reduced(packet@, max_size) == reduced(old(packet)@, max_size),
        decreases packet.answers.len() + packet.additional_records.len(),
    {
        let fitting = match encode(packet) {
            Some(bytes) => bytes.len() <= max_size,
            None => false,
        };
        if fitting {
            return true;
        }
        let ghost before = packet@;
        if packet.additional_records.len() > 0 {
            packet.additional_records.pop();
            assert(packet@ =~= without_last_additional(before));
        } else if packet.answers.len() > 0 {
            packet.answers.pop();
            assert(packet@ =~= without_last_answer(before));
        } else {
            return false;
        }
    }
}

/// Writes a message as a datagram of at most [`MAX_PACKET_SIZE`] bytes,
/// trimming it first as [`reduce_packet_size`] does.
///
/// Gives nothing where even the message without records does not fit.
pub fn serialize_packet(packet: &mut Message) -> (r: Option<Vec<u8>>)
    ensures
        final(packet)@ == reduced(old(packet)@, MAX_PACKET_SIZE),
        match r {
            Some(b) => fits(final(packet)@, MAX_PACKET_SIZE) && encoding(final(packet)@) == Some(
                b@,
            ),
            None => !fits(final(packet)@, MAX_PACKET_SIZE),
        },
{
    if !reduce_packet_size(packet, MAX_PACKET_SIZE) {
        return None;
    }
    encode(packet)
}

} // verus!
