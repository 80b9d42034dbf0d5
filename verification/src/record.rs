//! Resource records as plain values, and the mapping from a record to the
//! triplet a cache stores: fingerprint, response and lifetime.

use vstd::prelude::*;
use vstd::string::StringExecFns;
use vstd::utf8::{decode_utf8, valid_utf8};
use crate::text::{same_bytes, utf8_text};
use crate::types::{InnerView, Query, QueryType, QueryView, Response, ResponseInner, ResponseView, NANOS_PER_SEC};

verus! {

/// One character-string of a TXT record, split at its first `=`.
///
/// `value` is `None` when the string holds no `=`.
#[derive(Debug, Clone, PartialEq, Eq)]
pub struct TxtEntry {
    pub key: Vec<u8>,
    pub value: Option<Vec<u8>>,
}

/// Mathematical value of a [`TxtEntry`].
#[verifier::ext_equal]
pub struct EntryView {
    pub key: Seq<u8>,
    pub value: Option<Seq<u8>>,
}

impl View for TxtEntry {
    type V = EntryView;

    open spec fn view(&self) -> EntryView {
        EntryView {
            key: self.key@,
            value: match self.value {
                Some(v) => Some(v@),
                None => None,
            },
        }
    }
}

/// The values of the entries of a list, in order.
pub open spec fn entries_view(entries: Seq<TxtEntry>) -> Seq<EntryView> {
    Seq::new(entries.len(), |i: int| entries[i]@)
}

/// What a resource record carries.
#[allow(inconsistent_fields)]
#[derive(Debug, Clone, PartialEq, Eq)]
pub enum RecordData {
    PTR(String),
    SRV { priority: u16, weight: u16, port: u16, target: String },
    TXT { entries: Vec<TxtEntry> },
    A { address: u32 },
    AAAA { address: u128 },
    /// Any other record type; its content is not looked at.
    Other,
}

/// Mathematical value of a [`RecordData`].
#[allow(inconsistent_fields)]
#[verifier::ext_equal]
pub enum DataView {
    PTR(Seq<char>),
    SRV { priority: u16, weight: u16, port: u16, target: Seq<char> },
    TXT { entries: Seq<EntryView> },
    A { address: u32 },
    AAAA { address: u128 },
    Other,
}

impl View for RecordData {
    type V = DataView;

    open spec fn view(&self) -> DataView {
        match self {
            RecordData::PTR(target) => DataView::PTR(target@),
            RecordData::SRV { priority, weight, port, target } => DataView::SRV {
                priority: *priority,
                weight: *weight,
                port: *port,
                target: target@,
            },
            RecordData::TXT { entries } => DataView::TXT { entries: entries_view(entries@) },
            RecordData::A { address } => DataView::A { address: *address },
            RecordData::AAAA { address } => DataView::AAAA { address: *address },
            RecordData::Other => DataView::Other,
        }
    }
}

/// A resource record: owner name, class, lifetime in seconds and data.
///
/// `class_in` tells whether the record's class is IN.
#[derive(Debug, Clone, PartialEq, Eq)]
pub struct Record {
    pub name: String,
    pub class_in: bool,
    pub ttl: u32,
    pub data: RecordData,
}

/// Mathematical value of a [`Record`].
#[verifier::ext_equal]
pub struct RecordView {
    pub name: Seq<char>,
    pub class_in: bool,
    pub ttl: u32,
    pub data: DataView,
}

impl View for Record {
    type V = RecordView;

    open spec fn view(&self) -> RecordView {
        RecordView { name: self.name@, class_in: self.class_in, ttl: self.ttl, data: self.data@ }
    }
}

/// The values of the records of a list, in order.
pub open spec fn records_view(records: Seq<Record>) -> Seq<RecordView> {
    Seq::new(records.len(), |i: int| records[i]@)
}

/// One question of a message.
///
/// `qtype` is `None` when the question asks for a record type other than
/// the five a node answers.
#[derive(Debug, Clone, PartialEq, Eq)]
pub struct Inquiry {
    pub qname: String,
    pub qtype: Option<QueryType>,
    pub unicast_response: bool,
}

/// Mathematical value of a [`Inquiry`].
#[verifier::ext_equal]
pub struct InquiryView {
    pub qname: Seq<char>,
    pub qtype: Option<QueryType>,
    pub unicast_response: bool,
}

impl View for Inquiry {
    type V = InquiryView;

    open spec fn view(&self) -> InquiryView {
        InquiryView {
            qname: self.qname@,
            qtype: self.qtype,
            unicast_response: self.unicast_response,
        }
    }
}

impl Inquiry {
    /// A copy of the question.
    pub fn duplicate(&self) -> (r: Inquiry)
        ensures
            r@ == self@,
    {
        Inquiry {
            qname: self.qname.clone(),
            qtype: self.qtype,
            unicast_response: self.unicast_response,
        }
    }
}

/// The values of the questions of a list, in order.
pub open spec fn questions_view(questions: Seq<Inquiry>) -> Seq<InquiryView> {
    Seq::new(questions.len(), |i: int| questions[i]@)
}

/// A DNS message: whether it is a response, its questions, its answers and
/// its additional records.
#[derive(Debug, Clone, PartialEq, Eq)]
pub struct Message {
    pub response: bool,
    pub questions: Vec<Inquiry>,
    pub answers: Vec<Record>,
    pub additional_records: Vec<Record>,
}

/// Mathematical value of a [`Message`].
#[verifier::ext_equal]
pub struct MessageView {
    pub response: bool,
    pub questions: Seq<InquiryView>,
    pub answers: Seq<RecordView>,
    pub additional_records: Seq<RecordView>,
}

impl View for Message {
    type V = MessageView;

    open spec fn view(&self) -> MessageView {
        MessageView {
            response: self.response,
            questions: questions_view(self.questions@),
            answers: records_view(self.answers@),
            additional_records: records_view(self.additional_records@),
        }
    }
}

/// The text of an attribute value: the decoded bytes, or nothing where the
/// bytes are not UTF-8.
pub open spec fn value_text(value: Seq<u8>) -> Seq<char> {
    if valid_utf8(value) {
        decode_utf8(value)
    } else {
        Seq::empty()
    }
}

/// Whether an entry with a readable key equal to `key` stands among `entries`.
pub open spec fn key_seen(entries: Seq<EntryView>, key: Seq<u8>) -> bool {
    exists|j: int| 0 <= j < entries.len() && #[trigger] entries[j].key == key
}

/// Whether the last entry of `entries` contributes an attribute: its key is
/// UTF-8, no earlier entry has the same key, and it has a value.
pub open spec fn last_entry_counts(entries: Seq<EntryView>) -> bool
    recommends
        entries.len() > 0,
{
    let e = entries.last();
    valid_utf8(e.key) && !key_seen(entries.drop_last(), e.key) && e.value is Some
}

/// The `key=value` strings of a TXT record, in the order of the record.
///
/// An entry counts when its key is UTF-8 and it is the first with that key.
/// Of those, the entries without a value are dropped.
pub open spec fn attribute_strings(entries: Seq<EntryView>) -> Seq<Seq<char>>
    decreases entries.len(),
{
    if entries.len() == 0 {
        Seq::empty()
    } else {
        let e = entries.last();
        let before = attribute_strings(entries.drop_last());
        if last_entry_counts(entries) {
            before.push(decode_utf8(e.key) + seq!['='] + value_text(e.value->0))
        } else {
            before
        }
    }
}

/// The payload a record's data maps to, if it is one of the five kinds.
pub open spec fn payload(data: DataView) -> Option<InnerView> {
    match data {
        DataView::PTR(target) => Some(InnerView::PTR(target)),
        DataView::SRV { priority, weight, port, target } => Some(InnerView::SRV { port, target }),
        DataView::TXT { entries } => Some(InnerView::TXT { strings: attribute_strings(entries) }),
        DataView::A { address } => Some(InnerView::A { address }),
        DataView::AAAA { address } => Some(InnerView::AAAA { address }),
        DataView::Other => None,
    }
}

/// The record type of a payload.
pub open spec fn inner_qtype(inner: InnerView) -> QueryType {
    match inner {
        InnerView::PTR(_) => QueryType::PTR,
        InnerView::SRV { .. } => QueryType::SRV,
        InnerView::TXT { .. } => QueryType::TXT,
        InnerView::A { .. } => QueryType::A,
        InnerView::AAAA { .. } => QueryType::AAAA,
    }
}

/// The instant `ttl` seconds after `now`, in nanoseconds.
pub open spec fn expiry(now: u64, ttl: u32) -> u128 {
    (now as u128 + ttl as u128 * NANOS_PER_SEC) as u128
}

/// The triplet a record stands for at the instant `now`: none unless the
/// class is IN and the data is one of the five kinds.
pub open spec fn triplet_of(record: RecordView, now: u64) -> Option<(QueryView, ResponseView, u32)> {
    if !record.class_in {
        None
    } else {
        match payload(record.data) {
            None => None,
            Some(inner) => Some(
                (
                    QueryView { qname: record.name, qtype: inner_qtype(inner) },
                    ResponseView { inner, ends_at: expiry(now, record.ttl) },
                    record.ttl,
                ),
            ),
        }
    }
}

/// The value of an optional triplet.
pub open spec fn triplet_view(t: Option<(Query, Response, u32)>) -> Option<
    (QueryView, ResponseView, u32),
> {
    match t {
        Some((q, r, ttl)) => Some((q@, r@, ttl)),
        None => None,
    }
}

/// Whether `key` is one of `seen`.
pub open spec fn holds_key(seen: Seq<Vec<u8>>, key: Seq<u8>) -> bool {
    exists|j: int| 0 <= j < seen.len() && (#[trigger] seen[j])@ == key
}

/// Whether `key` is one of `seen`.
fn seen_before(seen: &Vec<Vec<u8>>, key: &Vec<u8>) -> (r: bool)
    ensures
        r == holds_key(seen@, key@),
{
    let mut i: usize = 0;
    while i < seen.len()
        invariant
            i <= seen.len(),
            forall|j: int| 0 <= j < i ==> (#[trigger] seen[j])@ != key@,
        decreases seen.len() - i,
    {
        if same_bytes(&seen[i], key) {
            return true;
        }
        i += 1;
    }
    false
}

/// Extending a list of entries by one keeps every key that was seen.
proof fn lemma_key_seen_extends(entries: Seq<EntryView>, key: Seq<u8>)
    requires
        entries.len() > 0,
    ensures
        key_seen(entries, key) <==> (key_seen(entries.drop_last(), key) || entries.last().key
            == key),
{
    let init = entries.drop_last();
    if key_seen(entries, key) {
        let m = choose|m: int| 0 <= m < entries.len() && #[trigger] entries[m].key == key;
        if m < init.len() {
            assert(init[m].key == key);
        }
    }
    if key_seen(init, key) {
        let m = choose|m: int| 0 <= m < init.len() && #[trigger] init[m].key == key;
        assert(entries[m].key == key);
    }
    if entries.last().key == key {
        assert(entries[entries.len() - 1].key == key);
    }
}

/// The `key=value` strings of a TXT record's entries.
pub fn txt_attribute_strings(entries: &Vec<TxtEntry>) -> (r: Vec<String>)
    ensures
        r.deep_view() == attribute_strings(entries_view(entries@)),
{
    let mut out: Vec<String> = Vec::new();
    let mut seen: Vec<Vec<u8>> = Vec::new();
    let ghost all = entries_view(entries@);
    let mut i: usize = 0;
    assert(all.take(0) =~= Seq::<EntryView>::empty());
    assert(out.deep_view() =~= Seq::<Seq<char>>::empty());
    while i < entries.len()
        invariant
            i <= entries.len(),
            all == entries_view(entries@),
            out.deep_view() == attribute_strings(all.take(i as int)),
            forall|j: int|
                0 <= j < seen.len() ==> valid_utf8((#[trigger] seen[j])@) && key_seen(
                    all.take(i as int),
                    seen[j]@,
                ),
            forall|m: int|
                0 <= m < i && valid_utf8((#[trigger] all[m]).key) ==> holds_key(seen@, all[m].key),
        decreases entries.len() - i,
    {
        let entry = &entries[i];
        let ghost prefix = all.take(i as int);
        let ghost next = all.take(i as int + 1);
        assert(next.drop_last() =~= prefix);
        assert(next.last() == entry@);
        let ghost old_out = out.deep_view();
        let ghost old_seen = seen@;
        proof {
            assert forall|j: int| 0 <= j < old_seen.len() implies key_seen(
                next,
                (#[trigger] old_seen[j])@,
            ) by {
                lemma_key_seen_extends(next, old_seen[j]@);
            }
        }
        let key_text = utf8_text(entry.key.as_slice());
        match key_text {
            Some(mut text) => {
                let dup = seen_before(&seen, &entry.key);
                proof {
                    if dup {
                        let j = choose|j: int|
                            0 <= j < seen.len() && (#[trigger] seen[j])@ == entry.key@;
                        assert(key_seen(prefix, seen[j]@));
                    }
                    if key_seen(prefix, entry@.key) {
                        let m = choose|m: int|
                            0 <= m < prefix.len() && #[trigger] prefix[m].key == entry@.key;
                        assert(all[m].key == entry@.key);
                        assert(holds_key(seen@, all[m].key));
                    }
                    assert(dup == key_seen(prefix, entry@.key));
                }
                if !dup {
                    seen.push(entry.key.clone());
                    assert(seen@.last()@ == entry.key@);
                    proof {
                        lemma_key_seen_extends(next, entry@.key);
                        assert forall|m: int|
                            0 <= m < i + 1 && valid_utf8((#[trigger] all[m]).key) implies holds_key(
                            seen@,
                            all[m].key,
                        ) by {
                            if m < i {
                                let j = choose|j: int|
                                    0 <= j < old_seen.len() && (#[trigger] old_seen[j])@
                                        == all[m].key;
                                assert(seen@[j]@ == all[m].key);
                            } else {
                                assert(seen@[seen.len() - 1]@ == all[m].key);
                            }
                        }
                    }
                    match &entry.value {
                        Some(v) => {
                            let value = match utf8_text(v.as_slice()) {
                                Some(t) => t,
                                None => String::new(),
                            };
                            text.push('=');
                            text.append(value.as_str());
                            assert(text@ =~= decode_utf8(entry@.key) + seq!['='] + value_text(
                                entry@.value->0,
                            ));
                            out.push(text);
                            assert(out.deep_view() =~= old_out.push(text@));
                        },
                        None => {},
                    }
                } else {
                    proof {
                        assert forall|m: int|
                            0 <= m < i + 1 && valid_utf8((#[trigger] all[m]).key) implies holds_key(
                            seen@,
                            all[m].key,
                        ) by {
                            if m == i {
                                assert(all[m].key == entry@.key);
                            }
                        }
                    }
                }
            },
            None => {},
        }
        i += 1;
    }
    assert(all.take(entries.len() as int) =~= all);
    out
}

/// The payload a record's data maps to, if it is one of the five kinds.
pub fn payload_of(data: &RecordData) -> (r: Option<ResponseInner>)
    ensures
        match r {
            Some(inner) => payload(data@) == Some(inner@),
            None => payload(data@) is None,
        },
{
    match data {
        RecordData::PTR(target) => Some(ResponseInner::PTR(target.clone())),
        RecordData::SRV { priority, weight, port, target } => Some(
            ResponseInner::SRV { port: *port, target: target.clone() },
        ),
        RecordData::TXT { entries } => Some(
            ResponseInner::TXT { strings: txt_attribute_strings(entries) },
        ),
        RecordData::A { address } => Some(ResponseInner::A { address: *address }),
        RecordData::AAAA { address } => Some(ResponseInner::AAAA { address: *address }),
        RecordData::Other => None,
    }
}

/// Maps a record to the triplet a cache stores for it.
///
/// A record of class IN that carries PTR, SRV, TXT, A or AAAA data gives the
/// fingerprint `(name, type)`, the payload with its expiry `now` plus the
/// record's lifetime, and that lifetime in seconds. Any other record gives
/// nothing. `now` counts nanoseconds since the Unix epoch.
pub fn prepare_triplet_from_record(record: &Record, now: u64) -> (r: Option<(Query, Response, u32)>)
    ensures
        triplet_view(r) == triplet_of(record@, now),
{
    if !record.class_in {
        return None;
    }
    match payload_of(&record.data) {
        None => None,
        Some(inner) => {
            let qtype = inner.qtype();
            let ends_at: u128 = now as u128 + record.ttl as u128 * NANOS_PER_SEC;
            Some(
                (
                    Query { qname: record.name.clone(), qtype },
                    Response { inner, ends_at },
                    record.ttl,
                ),
            )
        },
    }
}

} // verus!
