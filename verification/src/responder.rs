//! The responder: builds the reply to a list of questions from the registry
//! and drops the answers that the asker already knows.

use vstd::prelude::*;
use vstd::string::{StrSliceExecFns, StringExecFns, StringSliceAdditionalSpecFns};
use vstd::utf8::encode_utf8;
use crate::codec::{split_entry, EQUALS_SIGN, MAX_TXT_STRING};
use crate::instance::{pairs_view, Instance, InstanceView};
use crate::record::{
    entries_view, payload, payload_of, questions_view, records_view, triplet_of, DataView,
    EntryView, Inquiry, InquiryView, Message, MessageView, Record, RecordData, RecordView,
    TxtEntry,
};
use crate::registry::{found, lists, Registry};
use crate::text::lemma_first_of;
use crate::types::{QueryType, QueryView};

verus! {

/// The lifetime, in seconds, of the records a node advertises.
pub const DEFAULT_TTL: u32 = 120;

/// What a node knows of the machine it runs on: the name it answers under
/// and the addresses of its interfaces.
#[derive(Debug, Clone, PartialEq, Eq)]
pub struct LocalHost {
    pub hostname: String,
    pub ipv4: Vec<u32>,
    pub ipv6: Vec<u128>,
}

/// Mathematical value of a [`LocalHost`].
#[verifier::ext_equal]
pub struct LocalView {
    pub hostname: Seq<char>,
    pub ipv4: Seq<u32>,
    pub ipv6: Seq<u128>,
}

impl View for LocalHost {
    type V = LocalView;

    open spec fn view(&self) -> LocalView {
        LocalView { hostname: self.hostname@, ipv4: self.ipv4@, ipv6: self.ipv6@ }
    }
}

impl LocalHost {
    /// What a node knows of its machine, from the host name that the
    /// operating system reports and the addresses of the interfaces.
    pub fn new(os_hostname: &str, interfaces: &Vec<crate::types::Address>) -> (r: LocalHost)
        ensures
            r@.ipv4 == crate::registry::ip4_of(interfaces@),
            r@.ipv6 == crate::registry::ip6_of(interfaces@),
            crate::host::sanitized(os_hostname@).len() > 0 ==> r@.hostname
                == crate::host::sanitized(os_hostname@) + crate::host::dot_local(),
            crate::host::sanitized(os_hostname@).len() == 0 ==> {
                &&& r@.hostname.len() == 8 + 6
                &&& r@.hostname.skip(8) == crate::host::dot_local()
                &&& forall|i: int|
                    0 <= i < 8 ==> crate::host::is_alphanumeric(#[trigger] r@.hostname[i])
            },
    {
        LocalHost {
            hostname: crate::host::mdns_hostname(os_hostname),
            ipv4: Registry::get_ip4_list(interfaces),
            ipv6: Registry::get_ip6_list(interfaces),
        }
    }
}

/// The PTR record that leads from a service type to an instance.
pub open spec fn ptr_record_for(stype: Seq<char>, instance: Seq<char>) -> RecordView {
    RecordView { name: stype, class_in: true, ttl: DEFAULT_TTL, data: DataView::PTR(instance) }
}

/// The SRV record of an instance that listens on `port` of `host`.
pub open spec fn srv_record_for(instance: Seq<char>, port: u16, host: Seq<char>) -> RecordView {
    RecordView {
        name: instance,
        class_in: true,
        ttl: DEFAULT_TTL,
        data: DataView::SRV { priority: 0, weight: 0, port, target: host },
    }
}

/// The character-string `key=value` of an attribute.
pub open spec fn pair_string(pair: (Seq<char>, Seq<char>)) -> Seq<u8> {
    encode_utf8(pair.0) + seq![EQUALS_SIGN] + encode_utf8(pair.1)
}

/// The TXT entries of a list of attributes, in order. An attribute whose
/// string is longer than 255 bytes is left out.
pub open spec fn txt_entries(metadata: Seq<(Seq<char>, Seq<char>)>) -> Seq<EntryView>
    decreases metadata.len(),
{
    if metadata.len() == 0 {
        Seq::empty()
    } else {
        let before = txt_entries(metadata.drop_last());
        let s = pair_string(metadata.last());
        if s.len() <= MAX_TXT_STRING {
            before.push(split_entry(s))
        } else {
            before
        }
    }
}

/// The TXT record of an instance with the given attributes.
pub open spec fn txt_record_for(instance: Seq<char>, metadata: Seq<(Seq<char>, Seq<char>)>) -> RecordView {
    RecordView {
        name: instance,
        class_in: true,
        ttl: DEFAULT_TTL,
        data: DataView::TXT { entries: txt_entries(metadata) },
    }
}

/// The A records of a host, one per address.
pub open spec fn a_records_for(host: Seq<char>, addresses: Seq<u32>) -> Seq<RecordView> {
    Seq::new(
        addresses.len(),
        |i: int|
            RecordView {
                name: host,
                class_in: true,
                ttl: DEFAULT_TTL,
                data: DataView::A { address: addresses[i] },
            },
    )
}

/// The AAAA records of a host, one per address.
pub open spec fn aaaa_records_for(host: Seq<char>, addresses: Seq<u128>) -> Seq<RecordView> {
    Seq::new(
        addresses.len(),
        |i: int|
            RecordView {
                name: host,
                class_in: true,
                ttl: DEFAULT_TTL,
                data: DataView::AAAA { address: addresses[i] },
            },
    )
}

/// The additional records that go with the PTR answer for an instance: its
/// SRV record and, where it has attributes, its TXT record. Nothing where
/// the instance is not found.
pub open spec fn extras_for(
    all: Map<Seq<char>, Map<Seq<char>, InstanceView>>,
    host: Seq<char>,
    name: Seq<char>,
) -> Seq<RecordView> {
    match found(all, name) {
        Ok(instance) => if instance.metadata.len() > 0 {
            seq![
                srv_record_for(name, instance.port, host),
                txt_record_for(name, instance.metadata),
            ]
        } else {
            seq![srv_record_for(name, instance.port, host)]
        },
        Err(_) => Seq::empty(),
    }
}

/// The PTR answers for the instances `names` of a service type.
pub open spec fn ptr_answers(stype: Seq<char>, names: Seq<Seq<char>>) -> Seq<RecordView> {
    Seq::new(names.len(), |i: int| ptr_record_for(stype, names[i]))
}

/// The additional records for the instances `names`, in their order.
pub open spec fn ptr_extras(
    all: Map<Seq<char>, Map<Seq<char>, InstanceView>>,
    host: Seq<char>,
    names: Seq<Seq<char>>,
) -> Seq<RecordView>
    decreases names.len(),
{
    if names.len() == 0 {
        Seq::empty()
    } else {
        ptr_extras(all, host, names.drop_last()) + extras_for(all, host, names.last())
    }
}

/// The reply `prev` extended by the records for one question. `names` is
/// the order in which the instances of a service type are listed; it
/// matters for a PTR question only.
pub open spec fn answered(
    all: Map<Seq<char>, Map<Seq<char>, InstanceView>>,
    local: LocalView,
    q: InquiryView,
    names: Seq<Seq<char>>,
    prev: MessageView,
) -> MessageView {
    match q.qtype {
        Some(QueryType::PTR) => if all.dom().contains(q.qname) {
            MessageView {
                response: prev.response,
                questions: prev.questions,
                answers: prev.answers + ptr_answers(q.qname, names),
                additional_records: prev.additional_records + ptr_extras(
                    all,
                    local.hostname,
                    names,
                ),
            }
        } else {
            prev
        },
        Some(QueryType::SRV) => match found(all, q.qname) {
            Ok(instance) => MessageView {
                response: prev.response,
                questions: prev.questions,
                answers: prev.answers.push(srv_record_for(q.qname, instance.port, local.hostname)),
                additional_records: prev.additional_records + a_records_for(
                    local.hostname,
                    local.ipv4,
                ) + aaaa_records_for(local.hostname, local.ipv6),
            },
            Err(_) => prev,
        },
        Some(QueryType::TXT) => match found(all, q.qname) {
            Ok(instance) => if instance.metadata.len() > 0 {
                MessageView {
                    response: prev.response,
                    questions: prev.questions,
                    answers: prev.answers.push(txt_record_for(q.qname, instance.metadata)),
                    additional_records: prev.additional_records,
                }
            } else {
                prev
            },
            Err(_) => prev,
        },
        Some(QueryType::A) => MessageView {
            response: prev.response,
            questions: prev.questions,
            answers: prev.answers + a_records_for(local.hostname, local.ipv4),
            additional_records: prev.additional_records,
        },
        Some(QueryType::AAAA) => MessageView {
            response: prev.response,
            questions: prev.questions,
            answers: prev.answers + aaaa_records_for(local.hostname, local.ipv6),
            additional_records: prev.additional_records,
        },
        None => prev,
    }
}

/// Whether `names` is an order in which the question may see the instances
/// of its service type: for a PTR question on a service type with
/// instances, a listing of their names, each once.
pub open spec fn order_fits(
    all: Map<Seq<char>, Map<Seq<char>, InstanceView>>,
    q: InquiryView,
    names: Seq<Seq<char>>,
) -> bool {
    q.qtype == Some(QueryType::PTR) && all.dom().contains(q.qname) ==> lists(names, all[q.qname])
}

/// A reply without records.
pub open spec fn empty_reply() -> MessageView {
    MessageView {
        response: true,
        questions: Seq::empty(),
        answers: Seq::empty(),
        additional_records: Seq::empty(),
    }
}

/// The reply to a list of questions, answered one after the other, where
/// question `i` sees the instances of its service type in the order
/// `orders[i]`.
pub open spec fn reply_to(
    all: Map<Seq<char>, Map<Seq<char>, InstanceView>>,
    local: LocalView,
    questions: Seq<InquiryView>,
    orders: Seq<Seq<Seq<char>>>,
) -> MessageView
    decreases questions.len(),
{
    if questions.len() == 0 || orders.len() != questions.len() {
        empty_reply()
    } else {
        answered(
            all,
            local,
            questions.last(),
            orders.last(),
            reply_to(all, local, questions.drop_last(), orders.drop_last()),
        )
    }
}

/// Whether each order of `orders` fits its question.
pub open spec fn orders_fit(
    all: Map<Seq<char>, Map<Seq<char>, InstanceView>>,
    questions: Seq<InquiryView>,
    orders: Seq<Seq<Seq<char>>>,
) -> bool {
    &&& orders.len() == questions.len()
    &&& forall|i: int| 0 <= i < questions.len() ==> order_fits(all, questions[i], #[trigger] orders[i])
}

/// Whether the known record `k` makes the prepared record `p` superfluous:
/// both map to a triplet, with the same fingerprint and the same payload,
/// and `k` is to live at least half as long as `p`.
pub open spec fn known_by(p: RecordView, k: RecordView) -> bool {
    &&& p.class_in && k.class_in
    &&& payload(p.data) is Some
    &&& payload(k.data) == payload(p.data)
    &&& k.name == p.name
    &&& k.ttl >= p.ttl / 2
}

/// A known record makes a prepared record superfluous exactly if both map
/// to a triplet, the fingerprints are equal, the payloads are equal, and the
/// lifetime of the known record is at least half that of the prepared one.
/// The instants at which the triplets are taken do not matter.
pub proof fn lemma_known_by_triplets(p: RecordView, k: RecordView, now_p: u64, now_k: u64)
    ensures
        known_by(p, k) <==> match (triplet_of(p, now_p), triplet_of(k, now_k)) {
            (Some((p_query, p_response, p_ttl)), Some((k_query, k_response, k_ttl))) => {
                &&& p_query == k_query
                &&& p_response.inner == k_response.inner
                &&& k_ttl >= p_ttl / 2
            },
            _ => false,
        },
{
}

/// The reply to a PTR question for a service type holds, for each instance
/// of the type, a PTR answer whose fingerprint is that of the question: the
/// service type with the type PTR.
pub proof fn lemma_ptr_answer_fingerprint(
    all: Map<Seq<char>, Map<Seq<char>, InstanceView>>,
    local: LocalView,
    q: InquiryView,
    names: Seq<Seq<char>>,
    prev: MessageView,
    name: Seq<char>,
    now: u64,
)
    requires
        q.qtype == Some(QueryType::PTR),
        all.dom().contains(q.qname),
        all[q.qname].dom().contains(name),
        lists(names, all[q.qname]),
    ensures
        exists|i: int|
            0 <= i < answered(all, local, q, names, prev).answers.len() && #[trigger] answered(
                all,
                local,
                q,
                names,
                prev,
            ).answers[i] == ptr_record_for(q.qname, name),
        triplet_of(ptr_record_for(q.qname, name), now) matches Some((query, response, ttl))
            && query == (QueryView { qname: q.qname, qtype: QueryType::PTR }),
{
    let k = choose|k: int| 0 <= k < names.len() && #[trigger] names[k] == name;
    let answers = answered(all, local, q, names, prev).answers;
    let i = prev.answers.len() + k;
    assert(answers[i] == ptr_answers(q.qname, names)[k]);
    assert(answers[i] == ptr_record_for(q.qname, name));
}

/// Whether one of the known records makes the prepared record superfluous.
pub open spec fn suppressed(p: RecordView, known: Seq<RecordView>) -> bool {
    exists|j: int| 0 <= j < known.len() && known_by(p, #[trigger] known[j])
}

/// The prepared records that the known records leave, in their order.
pub open spec fn kept(prepared: Seq<RecordView>, known: Seq<RecordView>) -> Seq<RecordView>
    decreases prepared.len(),
{
    if prepared.len() == 0 {
        Seq::empty()
    } else {
        let before = kept(prepared.drop_last(), known);
        if suppressed(prepared.last(), known) {
            before
        } else {
            before.push(prepared.last())
        }
    }
}

/// Known-answer suppression leaves no record that a known record makes
/// superfluous, and leaves every other prepared record: a record stands
/// among the kept ones exactly if it stands among the prepared ones and is
/// not suppressed.
pub proof fn lemma_kept_members(prepared: Seq<RecordView>, known: Seq<RecordView>, r: RecordView)
    ensures
        kept(prepared, known).contains(r) <==> prepared.contains(r) && !suppressed(r, known),
    decreases prepared.len(),
{
    if prepared.len() == 0 {
    } else {
        let init = prepared.drop_last();
        let last = prepared.last();
        lemma_kept_members(init, known, r);
        let before = kept(init, known);
        if prepared.contains(r) {
            let i = choose|i: int| 0 <= i < prepared.len() && prepared[i] == r;
            if i < init.len() {
                assert(init[i] == r);
            }
        }
        if init.contains(r) {
            let i = choose|i: int| 0 <= i < init.len() && init[i] == r;
            assert(prepared[i] == r);
        }
        assert(prepared[prepared.len() - 1] == last);
        if !suppressed(last, known) {
            let after = before.push(last);
            if after.contains(r) {
                let i = choose|i: int| 0 <= i < after.len() && after[i] == r;
                if i < before.len() {
                    assert(before[i] == r);
                }
            }
            if before.contains(r) {
                let i = choose|i: int| 0 <= i < before.len() && before[i] == r;
                assert(after[i] == r);
            }
            assert(after[after.len() - 1] == last);
        }
    }
}

/// A prepared answer for which the asker sent a known record with the same
/// fingerprint and payload, and at least half the lifetime, is absent from
/// what suppression leaves.
pub proof fn lemma_known_answer_absent(
    prepared: Seq<RecordView>,
    known: Seq<RecordView>,
    p: RecordView,
    k: RecordView,
)
    requires
        known.contains(k),
        known_by(p, k),
    ensures
        !kept(prepared, known).contains(p),
{
    let j = choose|j: int| 0 <= j < known.len() && known[j] == k;
    assert(known_by(p, known[j]));
    lemma_kept_members(prepared, known, p);
}

/// A record that maps to no triplet is never suppressed.
pub proof fn lemma_other_records_stay(prepared: Seq<RecordView>, known: Seq<RecordView>, p: RecordView)
    requires
        prepared.contains(p),
        !p.class_in || payload(p.data) is None,
    ensures
        kept(prepared, known).contains(p),
{
    lemma_kept_members(prepared, known, p);
}

/// Whether one of the known records makes the prepared record superfluous.
pub fn is_suppressed(p: &Record, known: &Vec<Record>) -> (r: bool)
    ensures
        r == suppressed(p@, records_view(known@)),
{
    if !p.class_in {
        return false;
    }
    let inner = match payload_of(&p.data) {
        Some(inner) => inner,
        None => {
            return false;
        },
    };
    let ghost kv = records_view(known@);
    let mut j: usize = 0;
    while j < known.len()
        invariant
            j <= known.len(),
            kv == records_view(known@),
            p.class_in,
            payload(p@.data) == Some(inner@),
            forall|i: int| 0 <= i < j ==> !known_by(p@, #[trigger] kv[i]),
        decreases known.len() - j,
    {
        let k = &known[j];
        assert(kv[j as int] == k@);
        if k.class_in && k.name == p.name && k.ttl >= p.ttl / 2 {
            match payload_of(&k.data) {
                Some(other) => {
                    if other.same(&inner) {
                        assert(known_by(p@, kv[j as int]));
                        return true;
                    }
                },
                None => {},
            }
        }
        j += 1;
    }
    false
}

impl Responder {
    /// Known-answer suppression: takes out of `prepared_answers` each record
    /// that one of `known_answers` makes superfluous, and keeps the others in
    /// their order.
    pub fn suppress_known_answers(prepared_answers: &mut Vec<Record>, known_answers: &Vec<Record>)
        ensures
            records_view(final(prepared_answers)@) == kept(
                records_view(old(prepared_answers)@),
                records_view(known_answers@),
            ),
    {
        let ghost given = records_view(prepared_answers@);
        let ghost known = records_view(known_answers@);
        let ghost mut seen: int = 0;
        let mut i: usize = 0;
        assert(given.take(0) =~= Seq::empty());
        assert(given.skip(0) =~= given);
        assert(records_view(prepared_answers@) =~= kept(given.take(0), known) + given.skip(0));
        while i < prepared_answers.len()
            invariant
                0 <= seen <= given.len(),
                known == records_view(known_answers@),
                i == kept(given.take(seen), known).len(),
                records_view(prepared_answers@) == kept(given.take(seen), known) + given.skip(seen),
            decreases prepared_answers.len() - i,
        {
            let ghost current = records_view(prepared_answers@);
            proof {
                assert(seen < given.len());
                assert(current[i as int] == given.skip(seen)[0]);
                let next = given.take(seen + 1);
                assert(next.drop_last() =~= given.take(seen));
                assert(next.last() == given[seen]);
                assert(given.skip(seen).skip(1) =~= given.skip(seen + 1));
            }
            if is_suppressed(&prepared_answers[i], known_answers) {
                prepared_answers.remove(i);
                proof {
                    assert(records_view(prepared_answers@) =~= current.remove(i as int));
                    assert(current.remove(i as int) =~= kept(given.take(seen + 1), known)
                        + given.skip(seen + 1));
                    seen = seen + 1;
                }
            } else {
                proof {
                    assert(current =~= kept(given.take(seen + 1), known) + given.skip(seen + 1));
                    seen = seen + 1;
                }
                i += 1;
            }
        }
        proof {
            assert(given.skip(seen).len() == 0);
            assert(given.take(seen) =~= given);
            assert(records_view(prepared_answers@) =~= kept(given, known));
        }
    }
}

/// Splits a character-string at its first `=`.
pub fn split_string(s: &Vec<u8>) -> (r: TxtEntry)
    ensures
        r@ == split_entry(s@),
{
    let mut i: usize = 0;
    while i < s.len() && s[i] != EQUALS_SIGN
        invariant
            i <= s.len(),
            forall|j: int| 0 <= j < i ==> s@[j] != EQUALS_SIGN,
        decreases s.len() - i,
    {
        i += 1;
    }
    proof {
        lemma_first_of(s@, EQUALS_SIGN, i as int);
    }
    if i < s.len() {
        let key = copy_range(s, 0, i);
        let value = copy_range(s, i + 1, s.len());
        assert(key@ =~= s@.take(i as int));
        assert(value@ =~= s@.skip(i as int + 1));
        TxtEntry { key, value: Some(value) }
    } else {
        let key = copy_range(s, 0, s.len());
        assert(key@ =~= s@);
        TxtEntry { key, value: None }
    }
}

/// The bytes of `s` from `from` up to `to`.
pub fn copy_range(s: &Vec<u8>, from: usize, to: usize) -> (r: Vec<u8>)
    requires
        from <= to <= s.len(),
    ensures
        r@ == s@.subrange(from as int, to as int),
{
    let mut out: Vec<u8> = Vec::new();
    let mut i: usize = from;
    while i < to
        invariant
            from <= i <= to,
            to <= s.len(),
            out@ == s@.subrange(from as int, i as int),
        decreases to - i,
    {
        out.push(s[i]);
        assert(s@.subrange(from as int, i as int + 1) =~= s@.subrange(from as int, i as int).push(
            s@[i as int],
        ));
        i += 1;
    }
    out
}

/// The character-string `key=value` of an attribute, where it is at most
/// 255 bytes long.
fn attribute_string(key: &String, value: &String) -> (r: Option<Vec<u8>>)
    ensures
        match r {
            Some(s) => s@ == pair_string((key@, value@)) && s@.len() <= MAX_TXT_STRING,
            None => pair_string((key@, value@)).len() > MAX_TXT_STRING,
        },
{
    let k = key.as_str().as_bytes_vec();
    let v = value.as_str().as_bytes_vec();
    if k.len() > MAX_TXT_STRING || v.len() > MAX_TXT_STRING || k.len() + 1 + v.len()
        > MAX_TXT_STRING {
        return None;
    }
    let mut out = k;
    out.push(EQUALS_SIGN);
    let mut i: usize = 0;
    let ghost head = out@;
    assert(v@.take(0) =~= Seq::empty());
    assert(out@ =~= head + v@.take(0));
    while i < v.len()
        invariant
            i <= v.len(),
            out@ == head + v@.take(i as int),
        decreases v.len() - i,
    {
        out.push(v[i]);
        assert(v@.take(i as int + 1) =~= v@.take(i as int).push(v@[i as int]));
        assert(out@ =~= head + v@.take(i as int + 1));
        i += 1;
    }
    assert(v@.take(v.len() as int) =~= v@);
    Some(out)
}

/// The TXT record of an instance with the given attributes.
pub fn txt_record(name: &str, metadata: &Vec<(String, String)>) -> (r: Record)
    ensures
        r@ == txt_record_for(name@, pairs_view(metadata@)),
{
    let mut entries: Vec<TxtEntry> = Vec::new();
    let ghost pairs = pairs_view(metadata@);
    let mut i: usize = 0;
    assert(pairs.take(0) =~= Seq::empty());
    assert(entries_view(entries@) =~= Seq::empty());
    while i < metadata.len()
        invariant
            i <= metadata.len(),
            pairs == pairs_view(metadata@),
            entries_view(entries@) == txt_entries(pairs.take(i as int)),
        decreases metadata.len() - i,
    {
        proof {
            let next = pairs.take(i as int + 1);
            assert(next.drop_last() =~= pairs.take(i as int));
            assert(next.last() == (metadata@[i as int].0@, metadata@[i as int].1@));
        }
        let ghost before = entries_view(entries@);
        match attribute_string(&metadata[i].0, &metadata[i].1) {
            Some(s) => {
                let entry = split_string(&s);
                entries.push(entry);
                assert(entries_view(entries@) =~= before.push(entry@));
            },
            None => {},
        }
        i += 1;
    }
    assert(pairs.take(metadata.len() as int) =~= pairs);
    Record {
        name: String::from_str(name),
        class_in: true,
        ttl: DEFAULT_TTL,
        data: RecordData::TXT { entries },
    }
}

/// The SRV record of an instance that listens on `port` of `host`.
pub fn srv_record(name: &str, port: u16, host: &str) -> (r: Record)
    ensures
        r@ == srv_record_for(name@, port, host@),
{
    Record {
        name: String::from_str(name),
        class_in: true,
        ttl: DEFAULT_TTL,
        data: RecordData::SRV {
            priority: 0,
            weight: 0,
            port,
            target: String::from_str(host),
        },
    }
}

/// Appends the A records of the host to `out`.
pub fn inject_a_records(local: &LocalHost, out: &mut Vec<Record>)
    ensures
        records_view(final(out)@) == records_view(old(out)@) + a_records_for(
            local@.hostname,
            local@.ipv4,
        ),
{
    let ghost before = records_view(out@);
    let mut i: usize = 0;
    assert(records_view(out@) =~= before + a_records_for(local@.hostname, local@.ipv4).take(0));
    while i < local.ipv4.len()
        invariant
            i <= local.ipv4.len(),
            records_view(out@) == before + a_records_for(local@.hostname, local@.ipv4).take(
                i as int,
            ),
        decreases local.ipv4.len() - i,
    {
        let ghost prev = records_view(out@);
        let r = Record {
            name: local.hostname.clone(),
            class_in: true,
            ttl: DEFAULT_TTL,
            data: RecordData::A { address: local.ipv4[i] },
        };
        out.push(r);
        assert(records_view(out@) =~= prev.push(r@));
        assert(a_records_for(local@.hostname, local@.ipv4).take(i as int + 1) =~= a_records_for(
            local@.hostname,
            local@.ipv4,
        ).take(i as int).push(r@));
        assert(records_view(out@) =~= before + a_records_for(local@.hostname, local@.ipv4).take(
            i as int + 1,
        ));
        i += 1;
    }
    assert(a_records_for(local@.hostname, local@.ipv4).take(local.ipv4.len() as int)
        =~= a_records_for(local@.hostname, local@.ipv4));
}

/// Appends the AAAA records of the host to `out`.
pub fn inject_aaaa_records(local: &LocalHost, out: &mut Vec<Record>)
    ensures
        records_view(final(out)@) == records_view(old(out)@) + aaaa_records_for(
            local@.hostname,
            local@.ipv6,
        ),
{
    let ghost before = records_view(out@);
    let mut i: usize = 0;
    assert(records_view(out@) =~= before + aaaa_records_for(local@.hostname, local@.ipv6).take(0));
    while i < local.ipv6.len()
        invariant
            i <= local.ipv6.len(),
            records_view(out@) == before + aaaa_records_for(local@.hostname, local@.ipv6).take(
                i as int,
            ),
        decreases local.ipv6.len() - i,
    {
        let ghost prev = records_view(out@);
        let r = Record {
            name: local.hostname.clone(),
            class_in: true,
            ttl: DEFAULT_TTL,
            data: RecordData::AAAA { address: local.ipv6[i] },
        };
        out.push(r);
        assert(records_view(out@) =~= prev.push(r@));
        assert(aaaa_records_for(local@.hostname, local@.ipv6).take(i as int + 1)
            =~= aaaa_records_for(local@.hostname, local@.ipv6).take(i as int).push(r@));
        assert(records_view(out@) =~= before + aaaa_records_for(local@.hostname, local@.ipv6).take(
            i as int + 1,
        ));
        i += 1;
    }
    assert(aaaa_records_for(local@.hostname, local@.ipv6).take(local.ipv6.len() as int)
        =~= aaaa_records_for(local@.hostname, local@.ipv6));
}

/// The responder of a node. It owns the registry of the instances that the
/// node advertises.
pub struct Responder {
    registry: Registry,
}

impl View for Responder {
    type V = Map<Seq<char>, Map<Seq<char>, InstanceView>>;

    closed spec fn view(&self) -> Self::V {
        self.registry@
    }
}

impl Responder {
    /// Whether the registry of the responder is well formed.
    pub closed spec fn wf(&self) -> bool {
        self.registry.wf()
    }

    /// A responder for the instances of `registry`.
    pub fn new(registry: Registry) -> (r: Responder)
        ensures
            r@ == registry@,
            r.wf() == registry.wf(),
    {
        Responder { registry }
    }

    /// The registry of the responder.
    pub fn registry(&self) -> (r: &Registry)
        ensures
            r@ == self@,
            r.wf() == self.wf(),
    {
        &self.registry
    }

    /// Registers an instance with the registry of the responder.
    pub fn register_device(&mut self, instance: Instance)
        requires
            old(self).wf(),
        ensures
            final(self)@ == crate::registry::registered(old(self)@, instance@),
            final(self).wf(),
    {
        self.registry.register_device(instance);
    }

    /// Unregisters an instance from the registry of the responder.
    pub fn unregister_device(&mut self, instance: &Instance)
        requires
            old(self).wf(),
        ensures
            final(self)@ == crate::registry::unregistered(old(self)@, instance@.name),
            final(self).wf(),
    {
        self.registry.unregister_device(instance);
    }

    /// Appends the SRV record of an instance and, where it has attributes,
    /// its TXT record. Appends nothing where the instance is not found.
    fn inject_extras(&self, name: &str, local: &LocalHost, out: &mut Vec<Record>)
        ensures
            records_view(final(out)@) == records_view(old(out)@) + extras_for(
                self@,
                local@.hostname,
                name@,
            ),
    {
        let ghost before = records_view(out@);
        match self.registry.get_instance(name) {
            Ok(instance) => {
                let srv = srv_record(name, instance.port(), local.hostname.as_str());
                out.push(srv);
                assert(records_view(out@) =~= before.push(srv@));
                if instance.metadata().len() > 0 {
                    let txt = txt_record(name, instance.metadata());
                    out.push(txt);
                    assert(records_view(out@) =~= before.push(srv@).push(txt@));
                    assert(records_view(out@) =~= before + extras_for(
                        self@,
                        local@.hostname,
                        name@,
                    ));
                } else {
                    assert(records_view(out@) =~= before + extras_for(
                        self@,
                        local@.hostname,
                        name@,
                    ));
                }
            },
            Err(_) => {
                assert(records_view(out@) =~= before + extras_for(self@, local@.hostname, name@));
            },
        }
    }

    /// Answers a PTR question: for each instance of the service type a PTR
    /// answer and, among the additional records, what [`extras_for`] names.
    /// Gives the order in which the instances were listed.
    fn prepare_ptr_response(&self, q: &Inquiry, local: &LocalHost, reply: &mut Message) -> (names:
        Ghost<Seq<Seq<char>>>)
        requires
            q.qtype == Some(QueryType::PTR),
        ensures
            order_fits(self@, q@, names@),
            final(reply)@ == answered(self@, local@, q@, names@, old(reply)@),
    {
        let ghost prev = reply@;
        match self.registry.get_instance_names(q.qname.as_str()) {
            Err(_) => Ghost(Seq::empty()),
            Ok(listed) => {
                let ghost nv = listed.deep_view();
                let mut k: usize = 0;
                assert(nv.take(0) =~= Seq::empty());
                assert(reply@.answers =~= prev.answers + ptr_answers(q@.qname, nv.take(0)));
                assert(reply@.additional_records =~= prev.additional_records + ptr_extras(
                    self@,
                    local@.hostname,
                    nv.take(0),
                ));
                while k < listed.len()
                    invariant
                        k <= listed.len(),
                        nv == listed.deep_view(),
                        reply@.response == prev.response,
                        reply@.questions == prev.questions,
                        reply@.answers == prev.answers + ptr_answers(q@.qname, nv.take(k as int)),
                        reply@.additional_records == prev.additional_records + ptr_extras(
                            self@,
                            local@.hostname,
                            nv.take(k as int),
                        ),
                    decreases listed.len() - k,
                {
                    let name = &listed[k];
                    let ghost answers_before = records_view(reply.answers@);
                    let ghost extras_before = records_view(reply.additional_records@);
                    let ghost questions_before = reply@.questions;
                    let record = Record {
                        name: q.qname.clone(),
                        class_in: true,
                        ttl: DEFAULT_TTL,
                        data: RecordData::PTR(name.clone()),
                    };
                    reply.answers.push(record);
                    self.inject_extras(name.as_str(), local, &mut reply.additional_records);
                    proof {
                        let next = nv.take(k as int + 1);
                        assert(next.drop_last() =~= nv.take(k as int));
                        assert(next.last() == name@);
                        assert(records_view(reply.answers@) =~= answers_before.push(record@));
                        assert(ptr_answers(q@.qname, next) =~= ptr_answers(
                            q@.qname,
                            nv.take(k as int),
                        ).push(record@));
                        assert(reply@.answers =~= prev.answers + ptr_answers(q@.qname, next));
                        assert(reply@.additional_records =~= prev.additional_records + ptr_extras(
                            self@,
                            local@.hostname,
                            next,
                        ));
                        assert(reply@.questions == questions_before);
                    }
                    k += 1;
                }
                assert(nv.take(listed.len() as int) =~= nv);
                Ghost(nv)
            },
        }
    }

    /// Extends a reply by the records for one question. Gives the order in
    /// which the instances of a PTR question were listed.
    fn answer_question(&self, q: &Inquiry, local: &LocalHost, reply: &mut Message) -> (names: Ghost<
        Seq<Seq<char>>,
    >)
        ensures
            order_fits(self@, q@, names@),
            final(reply)@ == answered(self@, local@, q@, names@, old(reply)@),
    {
        let ghost prev = reply@;
        match q.qtype {
            Some(QueryType::PTR) => self.prepare_ptr_response(q, local, reply),
            Some(QueryType::SRV) => {
                match self.registry.get_instance(q.qname.as_str()) {
                    Ok(instance) => {
                        let srv = srv_record(
                            q.qname.as_str(),
                            instance.port(),
                            local.hostname.as_str(),
                        );
                        reply.answers.push(srv);
                        inject_a_records(local, &mut reply.additional_records);
                        inject_aaaa_records(local, &mut reply.additional_records);
                        assert(reply@.answers =~= prev.answers.push(srv@));
                        assert(reply@ =~= answered(self@, local@, q@, Seq::empty(), prev));
                    },
                    Err(_) => {},
                }
                Ghost(Seq::empty())
            },
            Some(QueryType::TXT) => {
                match self.registry.get_instance(q.qname.as_str()) {
                    Ok(instance) => {
                        if instance.metadata().len() > 0 {
                            let txt = txt_record(q.qname.as_str(), instance.metadata());
                            reply.answers.push(txt);
                            assert(reply@.answers =~= prev.answers.push(txt@));
                            assert(reply@ =~= answered(self@, local@, q@, Seq::empty(), prev));
                        }
                    },
                    Err(_) => {},
                }
                Ghost(Seq::empty())
            },
            Some(QueryType::A) => {
                inject_a_records(local, &mut reply.answers);
                assert(reply@ =~= answered(self@, local@, q@, Seq::empty(), prev));
                Ghost(Seq::empty())
            },
            Some(QueryType::AAAA) => {
                inject_aaaa_records(local, &mut reply.answers);
                assert(reply@ =~= answered(self@, local@, q@, Seq::empty(), prev));
                Ghost(Seq::empty())
            },
            None => Ghost(Seq::empty()),
        }
    }

    /// Builds the reply to a list of questions.
    ///
    /// The questions are answered one after the other from the registry and
    /// from what the node knows of its host. A PTR question gives a PTR
    /// answer for each instance of the service type, with the SRV and TXT
    /// records of the instance among the additional records; an SRV question
    /// gives the SRV record of the instance, with the A and AAAA records of
    /// the host among the additional records; a TXT question gives the TXT
    /// record of an instance that has attributes; an A or AAAA question gives
    /// the address records of the host. A question for what is not
    /// registered adds nothing. The registry lists the instances of a
    /// service type in no fixed order.
    pub fn answer_queries(&self, questions: Vec<Inquiry>, local: &LocalHost) -> (r: Message)
        ensures
            exists|orders: Seq<Seq<Seq<char>>>|
                orders_fit(self@, questions_view(questions@), orders) && r@ == #[trigger] reply_to(
                    self@,
                    local@,
                    questions_view(questions@),
                    orders,
                ),
    {
        let mut reply = Message {
            response: true,
            questions: Vec::new(),
            answers: Vec::new(),
            additional_records: Vec::new(),
        };
        let ghost qs = questions_view(questions@);
        let ghost mut orders: Seq<Seq<Seq<char>>> = Seq::empty();
        let mut i: usize = 0;
        assert(qs.take(0) =~= Seq::empty());
        assert(reply@ =~= empty_reply());
        while i < questions.len()
            invariant
                i <= questions.len(),
                qs == questions_view(questions@),
                orders_fit(self@, qs.take(i as int), orders),
                reply@ == reply_to(self@, local@, qs.take(i as int), orders),
            decreases questions.len() - i,
        {
            let ghost before = orders;
            let names = self.answer_question(&questions[i], local, &mut reply);
            proof {
                let next = qs.take(i as int + 1);
                orders = orders.push(names@);
                assert(next.drop_last() =~= qs.take(i as int));
                assert(orders.drop_last() =~= before);
                assert(next.last() == questions@[i as int]@);
                assert forall|j: int| 0 <= j < next.len() implies order_fits(
                    self@,
                    next[j],
                    #[trigger] orders[j],
                ) by {
                    if j < i {
                        assert(orders[j] == before[j]);
                        assert(next[j] == qs.take(i as int)[j]);
                    }
                }
            }
            i += 1;
        }
        assert(qs.take(questions.len() as int) =~= qs);
        reply
    }
}

} // verus!
