//! The querier: what a query sends, when it waits and when it ends, and
//! which cached records are due for a refresh.

use vstd::prelude::*;
use vstd::string::{StrSliceExecFns, StringExecFns, StringSliceAdditionalSpecFns};
use vstd::utf8::{
    decode_utf8, encode_utf8, encode_utf8_decode_utf8, encode_utf8_valid_utf8, is_ascii_chars,
    is_ascii_chars_encode_utf8, valid_utf8,
};
use rand::{rng, Rng};
use tokio::sync::mpsc::Sender;
use crate::codec::{
    encoding, fits, reduced, serialize_packet, split_entry, EQUALS_SIGN, MAX_PACKET_SIZE,
    MAX_TXT_STRING,
};
use crate::record::{
    entries_view, inner_qtype, triplet_of, value_text, DataView, EntryView, Inquiry,
    InquiryView, Message, MessageView, Record, RecordData, RecordView, TxtEntry,
};
use crate::responder::split_string;
use crate::text::{first_of, lemma_first_of, lemma_first_of_bounds};
use crate::tracker::Tracker;
use crate::types::{
    InnerView, Query, QueryType, QueryView, Response, ResponseInner, ResponseView, NANOS_PER_SEC,
};

verus! {

/// Seconds between two refresh passes over the cache.
pub const REFRESH_PERIOD_SECS: u64 = 60;

/// Seconds that a query of a refresh pass waits for responses.
pub const REFRESH_QUERY_SECS: u64 = 5;

/// The least share of its lifetime, in percent, at which a record may be
/// refreshed.
pub const MIN_REFRESH_PERCENT: u32 = 85;

/// The greatest share of its lifetime, in percent, at which a record is
/// refreshed.
pub const MAX_REFRESH_PERCENT: u32 = 95;

/// The values of the responses of a list, in order.
pub open spec fn responses_view(responses: Seq<Response>) -> Seq<ResponseView> {
    Seq::new(responses.len(), |i: int| responses[i]@)
}

/// The whole seconds from `now` to `ends_at`; 0 where `ends_at` is not
/// later than `now`. Both count nanoseconds.
pub open spec fn remaining_secs(ends_at: u128, now: u64) -> nat {
    if ends_at > now {
        ((ends_at - now) / (NANOS_PER_SEC as int)) as nat
    } else {
        0
    }
}

/// The whole seconds from `now` to `ends_at`; 0 where `ends_at` is not
/// later than `now`.
pub fn remaining(ends_at: u128, now: u64) -> (r: u128)
    ensures
        r == remaining_secs(ends_at, now),
{
    if ends_at > now as u128 {
        (ends_at - now as u128) / NANOS_PER_SEC
    } else {
        0
    }
}

/// The number of seconds that is `percent` hundredths of `lifetime`,
/// rounded to the nearest second, a half upwards.
pub open spec fn refresh_threshold(lifetime: u32, percent: u32) -> nat {
    ((lifetime * percent + 50) / 100) as nat
}

/// Whether a record with `remaining` of its `lifetime` seconds left is due
/// for a refresh at the threshold of `percent` hundredths.
pub open spec fn due(remaining: nat, lifetime: u32, percent: u32) -> bool {
    remaining <= refresh_threshold(lifetime, percent)
}

/// Whether a record with `remaining_secs` of its `lifetime_secs` left is
/// due for a refresh at the threshold of `percent` hundredths of its
/// lifetime.
pub fn needs_refresh(remaining_secs: u128, lifetime_secs: u32, percent: u32) -> (r: bool)
    requires
        percent <= 100,
    ensures
        r == due(remaining_secs as nat, lifetime_secs, percent),
{
    assert(lifetime_secs as u64 * percent as u64 <= 0xffff_ffff * 100) by (nonlinear_arith)
        requires
            lifetime_secs <= 0xffff_ffff,
            percent <= 100,
    ;
    let threshold: u64 = (lifetime_secs as u64 * percent as u64 + 50) / 100;
    remaining_secs <= threshold as u128
}

/// A random share between 85 and 95 hundredths.
///
/// Calls `Rng::random_range` on the inclusive range 85 to 95, whose values
/// lie in that range.
#[verifier::external_body]
fn random_percent() -> (r: u32)
    ensures
        MIN_REFRESH_PERCENT <= r <= MAX_REFRESH_PERCENT,
{
    rng().random_range(85..=95)
}

/// The attribute entries that a list of strings is stored as. A string of
/// more than 255 bytes is left out.
pub open spec fn string_entries(strings: Seq<Seq<char>>) -> Seq<EntryView>
    decreases strings.len(),
{
    if strings.len() == 0 {
        Seq::empty()
    } else {
        let before = string_entries(strings.drop_last());
        let s = encode_utf8(strings.last());
        if s.len() <= MAX_TXT_STRING {
            before.push(split_entry(s))
        } else {
            before
        }
    }
}

/// The record data that carries a payload.
pub open spec fn data_for(inner: InnerView) -> DataView {
    match inner {
        InnerView::PTR(target) => DataView::PTR(target),
        InnerView::SRV { port, target } => DataView::SRV { priority: 0, weight: 0, port, target },
        InnerView::TXT { strings } => DataView::TXT { entries: string_entries(strings) },
        InnerView::A { address } => DataView::A { address },
        InnerView::AAAA { address } => DataView::AAAA { address },
    }
}

/// The record of class IN that carries a payload under a name.
pub open spec fn record_for(name: Seq<char>, inner: InnerView, ttl: u32) -> RecordView {
    RecordView { name, class_in: true, ttl, data: data_for(inner) }
}

/// The record of class IN that carries a payload under a name, with the
/// given lifetime in seconds.
pub fn record_from_response(name: &str, inner: &ResponseInner, ttl: u32) -> (r: Record)
    ensures
        r@ == record_for(name@, inner@, ttl),
{
    let data = match inner {
        ResponseInner::PTR(target) => RecordData::PTR(target.clone()),
        ResponseInner::SRV { port, target } => RecordData::SRV {
            priority: 0,
            weight: 0,
            port: *port,
            target: target.clone(),
        },
        ResponseInner::TXT { strings } => {
            let mut entries: Vec<TxtEntry> = Vec::new();
            let ghost sv = strings.deep_view();
            let mut i: usize = 0;
            assert(sv.take(0) =~= Seq::empty());
            assert(entries_view(entries@) =~= Seq::empty());
            while i < strings.len()
                invariant
                    i <= strings.len(),
                    sv == strings.deep_view(),
                    entries_view(entries@) == string_entries(sv.take(i as int)),
                decreases strings.len() - i,
            {
                proof {
                    let next = sv.take(i as int + 1);
                    assert(next.drop_last() =~= sv.take(i as int));
                    assert(next.last() == strings@[i as int]@);
                }
                let ghost before = entries_view(entries@);
                let bytes = strings[i].as_str().as_bytes_vec();
                if bytes.len() <= MAX_TXT_STRING {
                    let entry = split_string(&bytes);
                    entries.push(entry);
                    assert(entries_view(entries@) =~= before.push(entry@));
                }
                i += 1;
            }
            assert(sv.take(strings.len() as int) =~= sv);
            RecordData::TXT { entries }
        },
        ResponseInner::A { address } => RecordData::A { address: *address },
        ResponseInner::AAAA { address } => RecordData::AAAA { address: *address },
    };
    Record { name: String::from_str(name), class_in: true, ttl, data }
}

/// A record made of a fingerprint, a PTR, SRV, A or AAAA payload of the
/// fingerprint's type and a lifetime maps back to that fingerprint, that
/// payload with the expiry `now` plus the lifetime, and that lifetime.
pub proof fn lemma_triplet_round_trip(q: QueryView, inner: InnerView, ttl: u32, now: u64)
    requires
        q.qtype == inner_qtype(inner),
        !(inner is TXT),
    ensures
        triplet_of(record_for(q.qname, inner, ttl), now) == Some(
            (q, ResponseView { inner, ends_at: crate::record::expiry(now, ttl) }, ttl),
        ),
{
}

/// A record made of a fingerprint, a TXT payload and a lifetime maps back to
/// that fingerprint and lifetime, with the strings that the stored entries
/// give.
pub proof fn lemma_txt_triplet(q: QueryView, strings: Seq<Seq<char>>, ttl: u32, now: u64)
    requires
        q.qtype == QueryType::TXT,
    ensures
        triplet_of(record_for(q.qname, InnerView::TXT { strings }, ttl), now) == Some(
            (
                q,
                ResponseView {
                    inner: InnerView::TXT {
                        strings: crate::record::attribute_strings(string_entries(strings)),
                    },
                    ends_at: crate::record::expiry(now, ttl),
                },
                ttl,
            ),
        ),
{
}

/// Whether a string is a plain attribute: ASCII text of at most 255
/// characters that holds `=`.
pub open spec fn plain_attribute(s: Seq<char>) -> bool {
    is_ascii_chars(s) && s.len() <= MAX_TXT_STRING && first_of(s, '=') < s.len()
}

/// The key of an attribute: its text before the first `=`.
pub open spec fn attribute_key(s: Seq<char>) -> Seq<char> {
    s.take(first_of(s, '='))
}

/// Whether the strings are plain attributes with different keys.
pub open spec fn plain_attributes(strings: Seq<Seq<char>>) -> bool {
    &&& forall|i: int| 0 <= i < strings.len() ==> plain_attribute(#[trigger] strings[i])
    &&& forall|i: int, j: int|
        0 <= i < j < strings.len() ==> attribute_key(#[trigger] strings[i]) != attribute_key(
            #[trigger] strings[j],
        )
}

/// The entry that a plain attribute is stored as holds the bytes of its key
/// and of its value, and gives the attribute back.
proof fn lemma_plain_attribute_entry(s: Seq<char>)
    requires
        plain_attribute(s),
    ensures
        encode_utf8(s).len() <= MAX_TXT_STRING,
        split_entry(encode_utf8(s)).key == encode_utf8(attribute_key(s)),
        split_entry(encode_utf8(s)).value is Some,
        valid_utf8(split_entry(encode_utf8(s)).key),
        decode_utf8(split_entry(encode_utf8(s)).key) + seq!['='] + value_text(
            split_entry(encode_utf8(s)).value->0,
        ) == s,
{
    let bytes = encode_utf8(s);
    let i = first_of(s, '=');
    let k = s.take(i);
    let v = s.skip(i + 1);
    lemma_first_of_bounds(s, '=');
    is_ascii_chars_encode_utf8(s);
    assert forall|j: int| 0 <= j < i implies bytes[j] != EQUALS_SIGN by {
        assert(s[j] != '=');
        assert(bytes[j] == s[j] as u8);
        assert('\0' <= s[j] <= '\u{7f}');
    }
    assert(bytes[i] == s[i] as u8);
    lemma_first_of(bytes, EQUALS_SIGN, i);
    assert(is_ascii_chars(k));
    assert(is_ascii_chars(v));
    is_ascii_chars_encode_utf8(k);
    is_ascii_chars_encode_utf8(v);
    assert(encode_utf8(k) =~= bytes.take(i)) by {
        assert forall|j: int| 0 <= j < k.len() implies encode_utf8(k)[j] == bytes.take(i)[j] by {
            assert(k[j] == s[j]);
            assert(encode_utf8(k)[j] == k[j] as u8);
        }
    }
    assert(encode_utf8(v) =~= bytes.skip(i + 1)) by {
        assert forall|j: int| 0 <= j < v.len() implies encode_utf8(v)[j] == bytes.skip(i + 1)[j] by {
            assert(v[j] == s[i + 1 + j]);
            assert(encode_utf8(v)[j] == v[j] as u8);
        }
    }
    encode_utf8_valid_utf8(k);
    encode_utf8_valid_utf8(v);
    encode_utf8_decode_utf8(k);
    encode_utf8_decode_utf8(v);
    assert(k + seq!['='] + v =~= s);
}

/// Plain attributes are stored one entry each.
proof fn lemma_plain_entries(strings: Seq<Seq<char>>)
    requires
        forall|i: int| 0 <= i < strings.len() ==> plain_attribute(#[trigger] strings[i]),
    ensures
        string_entries(strings).len() == strings.len(),
        forall|i: int|
            0 <= i < strings.len() ==> #[trigger] string_entries(strings)[i] == split_entry(
                encode_utf8(strings[i]),
            ),
    decreases strings.len(),
{
    if strings.len() > 0 {
        let init = strings.drop_last();
        assert forall|i: int| 0 <= i < init.len() implies plain_attribute(#[trigger] init[i]) by {
            assert(init[i] == strings[i]);
        }
        lemma_plain_entries(init);
        lemma_plain_attribute_entry(strings.last());
        assert forall|i: int| 0 <= i < strings.len() implies #[trigger] string_entries(strings)[i]
            == split_entry(encode_utf8(strings[i])) by {
            if i < init.len() {
                assert(string_entries(strings)[i] == string_entries(init)[i]);
                assert(init[i] == strings[i]);
            }
        }
    }
}

/// Plain attributes with different keys come back from the entries they
/// are stored as, unchanged and in their order.
pub proof fn lemma_plain_attributes_come_back(strings: Seq<Seq<char>>)
    requires
        plain_attributes(strings),
    ensures
        crate::record::attribute_strings(string_entries(strings)) == strings,
    decreases strings.len(),
{
    if strings.len() == 0 {
        assert(crate::record::attribute_strings(string_entries(strings)) =~= strings);
    } else {
        let init = strings.drop_last();
        let last = strings.last();
        assert(plain_attributes(init)) by {
            assert forall|i: int| 0 <= i < init.len() implies plain_attribute(
                #[trigger] init[i],
            ) by {
                assert(init[i] == strings[i]);
            }
            assert forall|i: int, j: int| 0 <= i < j < init.len() implies attribute_key(
                #[trigger] init[i],
            ) != attribute_key(#[trigger] init[j]) by {
                assert(init[i] == strings[i] && init[j] == strings[j]);
            }
        }
        lemma_plain_attributes_come_back(init);
        lemma_plain_entries(strings);
        lemma_plain_entries(init);
        lemma_plain_attribute_entry(last);
        let entries = string_entries(strings);
        assert(entries.drop_last() =~= string_entries(init));
        assert(entries.last() == split_entry(encode_utf8(last)));
        let key = entries.last().key;
        assert(!crate::record::key_seen(entries.drop_last(), key)) by {
            if crate::record::key_seen(entries.drop_last(), key) {
                let j = choose|j: int|
                    0 <= j < entries.drop_last().len() && #[trigger] entries.drop_last()[j].key
                        == key;
                assert(entries.drop_last()[j] == split_entry(encode_utf8(init[j])));
                lemma_plain_attribute_entry(init[j]);
                assert(init[j] == strings[j]);
                encode_utf8_decode_utf8(attribute_key(strings[j]));
                encode_utf8_decode_utf8(attribute_key(last));
                assert(attribute_key(strings[j]) == attribute_key(strings[strings.len() - 1]));
            }
        }
        assert(crate::record::last_entry_counts(entries));
        assert(crate::record::attribute_strings(entries) =~= strings);
    }
}

/// A record made of a fingerprint, a TXT payload of plain attributes with
/// different keys and a lifetime maps back to that fingerprint, that
/// payload with the expiry `now` plus the lifetime, and that lifetime.
pub proof fn lemma_txt_round_trip(q: QueryView, strings: Seq<Seq<char>>, ttl: u32, now: u64)
    requires
        q.qtype == QueryType::TXT,
        plain_attributes(strings),
    ensures
        triplet_of(record_for(q.qname, InnerView::TXT { strings }, ttl), now) == Some(
            (
                q,
                ResponseView {
                    inner: InnerView::TXT { strings },
                    ends_at: crate::record::expiry(now, ttl),
                },
                ttl,
            ),
        ),
{
    lemma_plain_attributes_come_back(strings);
}

/// The lifetime written into a known answer: the seconds the response has
/// left, as a 32-bit number.
pub open spec fn known_ttl(ends_at: u128, now: u64) -> u32 {
    (remaining_secs(ends_at, now) % 0x1_0000_0000) as u32
}

/// The known answers of a query: one record per cached response, under the
/// name asked for, with the lifetime the response has left.
pub open spec fn known_answers(q: QueryView, cached: Seq<ResponseView>, now: u64) -> Seq<RecordView> {
    Seq::new(
        cached.len(),
        |i: int| record_for(q.qname, cached[i].inner, known_ttl(cached[i].ends_at, now)),
    )
}

/// The message a query sends: one question of class IN without the
/// unicast-response bit, and the cached responses as known answers.
pub open spec fn query_message(q: QueryView, cached: Seq<ResponseView>, now: u64) -> MessageView {
    MessageView {
        response: false,
        questions: seq![InquiryView { qname: q.qname, qtype: Some(q.qtype), unicast_response: false }],
        answers: known_answers(q, cached, now),
        additional_records: Seq::empty(),
    }
}

/// The datagram a query sends: its message, trimmed to the largest datagram;
/// none where even the question alone does not fit.
pub open spec fn query_datagram(q: QueryView, cached: Seq<ResponseView>, now: u64) -> Option<Seq<u8>> {
    let m = reduced(query_message(q, cached, now), MAX_PACKET_SIZE);
    if fits(m, MAX_PACKET_SIZE) {
        encoding(m)
    } else {
        None
    }
}

/// Builds the datagram of a query from the responses that the cache holds
/// for it.
pub fn prepare_query(query: &Query, cached: &Vec<Response>, now: u64) -> (r: Option<Vec<u8>>)
    ensures
        match r {
            Some(b) => query_datagram(query@, responses_view(cached@), now) == Some(b@),
            None => query_datagram(query@, responses_view(cached@), now) is None,
        },
{
    let mut packet = Message {
        response: false,
        questions: Vec::new(),
        answers: Vec::new(),
        additional_records: Vec::new(),
    };
    let question = Inquiry {
        qname: query.qname.clone(),
        qtype: Some(query.qtype),
        unicast_response: false,
    };
    packet.questions.push(question);
    let ghost cv = responses_view(cached@);
    let ghost wanted = known_answers(query@, cv, now);
    let mut i: usize = 0;
    while i < cached.len()
        invariant
            i <= cached.len(),
            cv == responses_view(cached@),
            wanted == known_answers(query@, cv, now),
            packet@.response == false,
            packet@.questions == seq![question@],
            packet@.additional_records == Seq::<RecordView>::empty(),
            packet.answers@.len() == i,
            forall|j: int| 0 <= j < i ==> (#[trigger] packet.answers@[j])@ == wanted[j],
        decreases cached.len() - i,
    {
        let response = &cached[i];
        assert(cv[i as int] == response@);
        let left = remaining(response.ends_at, now);
        let ttl: u32 = (left % 0x1_0000_0000) as u32;
        let record = record_from_response(query.qname.as_str(), &response.inner, ttl);
        let ghost questions_before = packet@.questions;
        packet.answers.push(record);
        assert(packet@.questions == questions_before);
        i += 1;
    }
    assert(packet@.answers =~= wanted);
    assert(packet@ =~= query_message(query@, cv, now));
    serialize_packet(&mut packet)
}

/// Whether a query is answered from the cache alone: the cache is not
/// bypassed and holds a response.
pub open spec fn answered_from_cache(cached: Seq<ResponseView>, bypass_cache: bool) -> bool {
    !bypass_cache && cached.len() > 0
}

/// Whether a query goes out on the network: it is not answered from the
/// cache, no query with its fingerprint is in flight, and its datagram can
/// be built.
pub open spec fn sends(
    in_flight: Set<QueryView>,
    q: QueryView,
    cached: Seq<ResponseView>,
    bypass_cache: bool,
    now: u64,
) -> bool {
    &&& !answered_from_cache(cached, bypass_cache)
    &&& !in_flight.contains(q)
    &&& query_datagram(q, cached, now) is Some
}

/// The queries in flight after a query was started.
pub open spec fn after_start(
    in_flight: Set<QueryView>,
    q: QueryView,
    cached: Seq<ResponseView>,
    bypass_cache: bool,
    now: u64,
) -> Set<QueryView> {
    if sends(in_flight, q, cached, bypass_cache, now) {
        in_flight.insert(q)
    } else {
        in_flight
    }
}

/// While a query is in flight, no second query with its fingerprint goes out
/// on the network, whatever the cache holds and whether or not it is
/// bypassed.
pub proof fn lemma_one_query_in_flight(
    in_flight: Set<QueryView>,
    q: QueryView,
    cached: Seq<ResponseView>,
    bypass_cache: bool,
    now: u64,
    cached_later: Seq<ResponseView>,
    bypass_later: bool,
    later: u64,
)
    requires
        sends(in_flight, q, cached, bypass_cache, now),
    ensures
        !sends(
            after_start(in_flight, q, cached, bypass_cache, now),
            q,
            cached_later,
            bypass_later,
            later,
        ),
{
}

/// How a query starts.
#[derive(Debug)]
pub enum QueryStart {
    /// The cache answers: these responses are the result.
    Cached(Vec<Response>),
    /// A query with this fingerprint is in flight: the result is empty.
    Busy,
    /// The datagram could not be built: the result is empty.
    Failed,
    /// The datagram goes to both multicast groups, and the query waits for
    /// what its sink yields.
    Send(Vec<u8>),
}

/// What a query does with an event of its sink.
#[derive(Debug)]
pub enum QueryStep {
    /// A response arrived: it goes into the cache with its lifetime.
    Store(Response, u32),
    /// The time is up: the result is what the cache holds now.
    Finish,
}

/// The values of cache entries: each a fingerprint, a response and a
/// lifetime in seconds.
pub open spec fn cache_view(entries: Seq<(Query, Response, u32)>) -> Seq<
    (QueryView, ResponseView, u32),
> {
    Seq::new(entries.len(), |i: int| (entries[i].0@, entries[i].1@, entries[i].2))
}

/// The fingerprints of the entries that are due for a refresh at `now`,
/// where entry `i` is held against the threshold `percents[i]`.
pub open spec fn selection(
    entries: Seq<(QueryView, ResponseView, u32)>,
    now: u64,
    percents: Seq<u32>,
) -> Seq<QueryView>
    decreases entries.len(),
{
    if entries.len() == 0 || percents.len() != entries.len() {
        Seq::empty()
    } else {
        let before = selection(entries.drop_last(), now, percents.drop_last());
        let e = entries.last();
        if due(remaining_secs(e.1.ends_at, now), e.2, percents.last()) {
            before.push(e.0)
        } else {
            before
        }
    }
}

/// The values of the queries of a list, in order.
pub open spec fn queries_view(queries: Seq<Query>) -> Seq<QueryView> {
    Seq::new(queries.len(), |i: int| queries[i]@)
}

/// Whether each of the thresholds lies between 85 and 95 hundredths.
pub open spec fn percents_in_range(percents: Seq<u32>) -> bool {
    forall|i: int|
        0 <= i < percents.len() ==> MIN_REFRESH_PERCENT <= #[trigger] percents[i]
            <= MAX_REFRESH_PERCENT
}

/// A record that is due at a threshold is due at every greater threshold.
pub proof fn lemma_due_monotonic(remaining: nat, lifetime: u32, low: u32, high: u32)
    requires
        low <= high,
        due(remaining, lifetime, low),
    ensures
        due(remaining, lifetime, high),
{
    assert(lifetime * low <= lifetime * high) by (nonlinear_arith)
        requires
            low <= high,
            lifetime >= 0,
    ;
}

/// The fingerprints of the cache entries that are due for a refresh, where
/// entry `i` is held against the threshold `percents[i]`.
pub fn select_due(entries: &Vec<(Query, Response, u32)>, now: u64, percents: &Vec<u32>) -> (r: Vec<
    Query,
>)
    requires
        percents@.len() == entries@.len(),
        forall|i: int| 0 <= i < percents@.len() ==> #[trigger] percents@[i] <= 100,
    ensures
        queries_view(r@) == selection(cache_view(entries@), now, percents@),
{
    let mut out: Vec<Query> = Vec::new();
    let ghost ev = cache_view(entries@);
    let mut i: usize = 0;
    assert(ev.take(0) =~= Seq::empty());
    assert(queries_view(out@) =~= Seq::empty());
    while i < entries.len()
        invariant
            i <= entries.len(),
            ev == cache_view(entries@),
            percents@.len() == entries@.len(),
            forall|j: int| 0 <= j < percents@.len() ==> #[trigger] percents@[j] <= 100,
            queries_view(out@) == selection(ev.take(i as int), now, percents@.take(i as int)),
        decreases entries.len() - i,
    {
        proof {
            let next = ev.take(i as int + 1);
            assert(next.drop_last() =~= ev.take(i as int));
            assert(percents@.take(i as int + 1).drop_last() =~= percents@.take(i as int));
            assert(next.last() == (entries@[i as int].0@, entries@[i as int].1@, entries@[i as int].2));
        }
        let ghost before = queries_view(out@);
        let left = remaining(entries[i].1.ends_at, now);
        if needs_refresh(left, entries[i].2, percents[i]) {
            let q = entries[i].0.duplicate();
            out.push(q);
            assert(queries_view(out@) =~= before.push(q@));
        }
        i += 1;
    }
    assert(ev.take(entries.len() as int) =~= ev);
    assert(percents@.take(entries.len() as int) =~= percents@);
    out
}

/// The querier of a node. It owns the tracker of the queries in flight.
pub struct Querier {
    tracker: Tracker,
}

impl View for Querier {
    type V = Set<QueryView>;

    closed spec fn view(&self) -> Set<QueryView> {
        self.tracker@
    }
}

impl Querier {
    /// A querier over the given tracker.
    pub fn new(tracker: Tracker) -> (r: Querier)
        ensures
            r@ == tracker@,
    {
        Querier { tracker }
    }

    /// The tracker of the queries in flight.
    pub fn tracker(&self) -> (r: &Tracker)
        ensures
            r@ == self@,
    {
        &self.tracker
    }

    /// Whether a record with `remaining_secs` of its `lifetime_secs` left is
    /// refreshed now. The threshold is drawn at random between 85 and 95
    /// hundredths of the lifetime: a record at or below the lower bound is
    /// refreshed, one above the upper bound is not.
    pub fn should_refresh(remaining_secs: u128, lifetime_secs: u32) -> (r: bool)
        ensures
            due(remaining_secs as nat, lifetime_secs, MIN_REFRESH_PERCENT) ==> r,
            r ==> due(remaining_secs as nat, lifetime_secs, MAX_REFRESH_PERCENT),
    {
        let percent = random_percent();
        proof {
            if due(remaining_secs as nat, lifetime_secs, MIN_REFRESH_PERCENT) {
                lemma_due_monotonic(
                    remaining_secs as nat,
                    lifetime_secs,
                    MIN_REFRESH_PERCENT,
                    percent,
                );
            }
            if due(remaining_secs as nat, lifetime_secs, percent) {
                lemma_due_monotonic(
                    remaining_secs as nat,
                    lifetime_secs,
                    percent,
                    MAX_REFRESH_PERCENT,
                );
            }
        }
        needs_refresh(remaining_secs, lifetime_secs, percent)
    }

    /// The fingerprints to query again: those of the cache entries that are
    /// due for a refresh at `now`, in the order of the entries. Each entry is
    /// held against a threshold of its own, drawn at random between 85 and
    /// 95 hundredths of its lifetime.
    pub fn refresh_cache(entries: &Vec<(Query, Response, u32)>, now: u64) -> (r: Vec<Query>)
        ensures
            exists|percents: Seq<u32>|
                percents.len() == entries@.len() && percents_in_range(percents) && queries_view(r@)
                    == #[trigger] selection(cache_view(entries@), now, percents),
    {
        let mut percents: Vec<u32> = Vec::new();
        let mut i: usize = 0;
        while i < entries.len()
            invariant
                i <= entries.len(),
                percents@.len() == i,
                percents_in_range(percents@),
            decreases entries.len() - i,
        {
            percents.push(random_percent());
            i += 1;
        }
        select_due(entries, now, &percents)
    }

    /// Starts a query.
    ///
    /// Where the cache is not bypassed and holds responses, these are the
    /// result. Else, where a query with this fingerprint is in flight, the
    /// result is empty. Else the datagram is built from the question and the
    /// cached responses; where that succeeds, the query is marked as in
    /// flight with `sink` before the datagram is handed out for sending.
    pub fn query(
        &mut self,
        query: Query,
        cached: Vec<Response>,
        bypass_cache: bool,
        now: u64,
        sink: Sender<Option<(Response, u32)>>,
    ) -> (r: QueryStart)
        ensures
            final(self)@ == after_start(old(self)@, query@, responses_view(cached@), bypass_cache, now),
            match r {
                QueryStart::Cached(responses) => answered_from_cache(
                    responses_view(cached@),
                    bypass_cache,
                ) && responses@ == cached@,
                QueryStart::Busy => !answered_from_cache(responses_view(cached@), bypass_cache)
                    && old(self)@.contains(query@),
                QueryStart::Failed => !answered_from_cache(responses_view(cached@), bypass_cache)
                    && !old(self)@.contains(query@) && query_datagram(
                    query@,
                    responses_view(cached@),
                    now,
                ) is None && !final(self)@.contains(query@),
                QueryStart::Send(bytes) => sends(
                    old(self)@,
                    query@,
                    responses_view(cached@),
                    bypass_cache,
                    now,
                ) && query_datagram(query@, responses_view(cached@), now) == Some(bytes@) && final(self)@.contains(query@),
            },
    {
        if !bypass_cache && cached.len() > 0 {
            return QueryStart::Cached(cached);
        }
        if self.tracker.contains(&query) {
            return QueryStart::Busy;
        }
        match prepare_query(&query, &cached, now) {
            None => QueryStart::Failed,
            Some(bytes) => {
                self.tracker.insert(query, sink);
                QueryStart::Send(bytes)
            },
        }
    }

    /// Takes one event of the sink of a query in flight.
    ///
    /// A response is handed on for the cache. The end of the wait takes the
    /// query out of the tracker: after it, no query with this fingerprint is
    /// in flight.
    pub fn receive(&mut self, query: &Query, event: Option<(Response, u32)>) -> (r: QueryStep)
        ensures
            match event {
                Some((response, ttl)) => r == QueryStep::Store(response, ttl) && final(self)@
                    == old(self)@,
                None => r is Finish && final(self)@ == old(self)@.remove(query@) && !final(self)@.contains(query@),
            },
    {
        match event {
            Some((response, ttl)) => QueryStep::Store(response, ttl),
            None => {
                self.tracker.remove(query);
                QueryStep::Finish
            },
        }
    }
}

} // verus!
