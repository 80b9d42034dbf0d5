//! The listener: which socket carries a datagram, what the receive loop
//! does next, and what a received datagram leads to.

use vstd::prelude::*;
use vstd::string::StringExecFns;
use tokio::sync::mpsc::Sender;
use crate::codec::{
    decode, encoding, fits, parsed_message, reduced, serialize_packet, MAX_PACKET_SIZE,
};
use crate::instance::InstanceView;
use crate::record::{
    prepare_triplet_from_record, questions_view, records_view, triplet_of, Inquiry, InquiryView,
    Message, MessageView, Record, RecordView,
};
use crate::responder::{copy_range, kept, orders_fit, reply_to, LocalHost, LocalView, Responder};
use crate::tracker::Tracker;
use crate::types::{Query, QueryView, Response, ResponseView};

verus! {

/// The size of each of the two receive buffers, in bytes.
pub const RECEIVE_BUFFER_SIZE: usize = 1472;

/// The number of datagrams that the work queue holds at most.
pub const WORK_QUEUE_CAPACITY: usize = 50;

/// The TTL and hop limit of the datagrams a node sends.
pub const HOP_LIMIT: u32 = 255;

/// The port of multicast DNS.
pub const MDNS_PORT: u16 = 5353;

/// The IPv4 multicast group `224.0.0.251`.
pub const MULTICAST_GROUP_V4: u32 = 0xE000_00FBu32;

/// The IPv6 multicast group `ff02::fb`.
pub const MULTICAST_GROUP_V6: u128 = 0xFF02_0000_0000_0000_0000_0000_0000_00FBu128;

/// The address of a peer: an IP address as a number in network order, and
/// a port.
#[allow(inconsistent_fields)]
#[derive(Debug, Clone, Copy, PartialEq, Eq, Structural)]
pub enum PeerAddr {
    V4 { address: u32, port: u16 },
    V6 { address: u128, port: u16, flowinfo: u32, scope_id: u32 },
}

/// The IPv4 family or the IPv6 family.
#[derive(Debug, Clone, Copy, PartialEq, Eq, Structural)]
pub enum Family {
    V4,
    V6,
}

impl PeerAddr {
    /// The family of the address.
    pub open spec fn spec_family(self) -> Family {
        match self {
            PeerAddr::V4 { .. } => Family::V4,
            PeerAddr::V6 { .. } => Family::V6,
        }
    }

    /// The family of the address.
    #[verifier::when_used_as_spec(spec_family)]
    pub fn family(self) -> (r: Family)
        ensures
            r == self.spec_family(),
    {
        match self {
            PeerAddr::V4 { .. } => Family::V4,
            PeerAddr::V6 { .. } => Family::V6,
        }
    }
}

/// The address of the IPv4 multicast group, `224.0.0.251:5353`.
pub open spec fn spec_multicast_addr_v4() -> PeerAddr {
    PeerAddr::V4 { address: MULTICAST_GROUP_V4, port: MDNS_PORT }
}

/// The address of the IPv6 multicast group, `[ff02::fb]:5353`.
pub open spec fn spec_multicast_addr_v6() -> PeerAddr {
    PeerAddr::V6 { address: MULTICAST_GROUP_V6, port: MDNS_PORT, flowinfo: 0, scope_id: 0 }
}

/// The address of the IPv4 multicast group, `224.0.0.251:5353`.
#[verifier::when_used_as_spec(spec_multicast_addr_v4)]
pub fn multicast_addr_v4() -> (r: PeerAddr)
    ensures
        r == spec_multicast_addr_v4(),
{
    PeerAddr::V4 { address: MULTICAST_GROUP_V4, port: MDNS_PORT }
}

/// The address of the IPv6 multicast group, `[ff02::fb]:5353`.
#[verifier::when_used_as_spec(spec_multicast_addr_v6)]
pub fn multicast_addr_v6() -> (r: PeerAddr)
    ensures
        r == spec_multicast_addr_v6(),
{
    PeerAddr::V6 { address: MULTICAST_GROUP_V6, port: MDNS_PORT, flowinfo: 0, scope_id: 0 }
}

/// A datagram together with the peer it came from or goes to.
#[derive(Debug, Clone, PartialEq, Eq)]
pub struct ChannelMessage {
    pub ip: PeerAddr,
    pub bytes: Vec<u8>,
}

/// What the receive loop is told: a datagram arrived on the socket of a
/// family, or that socket failed.
#[derive(Debug, PartialEq, Eq)]
pub enum ListenEvent {
    Received(ChannelMessage),
    Failed(Family),
}

/// What the receive loop does next.
#[derive(Debug, PartialEq, Eq)]
pub enum ListenStep {
    /// Publish the datagram, if there is one, to the work queue, and await
    /// the sockets named.
    Await { v4: bool, v6: bool, publish: Option<ChannelMessage> },
    /// End the loop with this error.
    Stop(String),
}

/// The sockets of a node and which of them still work.
#[derive(Debug)]
pub struct Listener {
    v4_socket: bool,
    v6_socket: bool,
    v4_broken: bool,
    v6_broken: bool,
}

/// Mathematical value of a [`Listener`].
pub struct ListenerView {
    pub v4_socket: bool,
    pub v6_socket: bool,
    pub v4_broken: bool,
    pub v6_broken: bool,
}

impl View for Listener {
    type V = ListenerView;

    closed spec fn view(&self) -> ListenerView {
        ListenerView {
            v4_socket: self.v4_socket,
            v6_socket: self.v6_socket,
            v4_broken: self.v4_broken,
            v6_broken: self.v6_broken,
        }
    }
}

/// The listener after an event: a socket that failed is broken
/// from then on.
pub open spec fn after_event(l: ListenerView, event: Option<ListenEvent>) -> ListenerView {
    match event {
        Some(ListenEvent::Failed(Family::V4)) => ListenerView {
            v4_socket: l.v4_socket,
            v6_socket: l.v6_socket,
            v4_broken: true,
            v6_broken: l.v6_broken,
        },
        Some(ListenEvent::Failed(Family::V6)) => ListenerView {
            v4_socket: l.v4_socket,
            v6_socket: l.v6_socket,
            v4_broken: l.v4_broken,
            v6_broken: true,
        },
        _ => l,
    }
}

impl Listener {
    /// Makes the listener of a node from what became of its two sockets.
    ///
    /// At least one of them must have been created. A socket that was not
    /// created counts as broken.
    pub fn new(v4_created: bool, v6_created: bool) -> (r: Result<Listener, String>)
        ensures
            match r {
                Ok(listener) => (v4_created || v6_created) && listener@ == (ListenerView {
                    v4_socket: v4_created,
                    v6_socket: v6_created,
                    v4_broken: !v4_created,
                    v6_broken: !v6_created,
                }),
                Err(message) => !v4_created && !v6_created && message@
                    == "Failed to create both IPv4 and IPv6 sockets"@,
            },
    {
        if !v4_created && !v6_created {
            return Err(String::from_str("Failed to create both IPv4 and IPv6 sockets"));
        }
        Ok(
            Listener {
                v4_socket: v4_created,
                v6_socket: v6_created,
                v4_broken: !v4_created,
                v6_broken: !v6_created,
            },
        )
    }

    /// One turn of the receive loop. `event` is what the last wait brought,
    /// or nothing at the start.
    ///
    /// A datagram that arrived is to be published. A socket that failed is
    /// broken from then on and is awaited no more. With both
    /// sockets broken the loop ends with an error.
    pub fn listen(&mut self, event: Option<ListenEvent>) -> (r: ListenStep)
        ensures
            final(self)@ == after_event(old(self)@, event),
            match r {
                ListenStep::Stop(message) => final(self)@.v4_broken && final(self)@.v6_broken
                    && message@ == "Both IPv4 and IPv6 sockets are broken"@,
                ListenStep::Await { v4, v6, publish } => {
                    &&& !(final(self)@.v4_broken && final(self)@.v6_broken)
                    &&& v4 == !final(self)@.v4_broken
                    &&& v6 == !final(self)@.v6_broken
                    &&& publish == match event {
                        Some(ListenEvent::Received(message)) => Some(message),
                        _ => None,
                    }
                },
            },
    {
        let publish = match event {
            Some(ListenEvent::Received(message)) => Some(message),
            Some(ListenEvent::Failed(Family::V4)) => {
                self.v4_broken = true;
                None
            },
            Some(ListenEvent::Failed(Family::V6)) => {
                self.v6_broken = true;
                None
            },
            None => None,
        };
        if self.v4_broken && self.v6_broken {
            ListenStep::Stop(String::from_str("Both IPv4 and IPv6 sockets are broken"))
        } else {
            ListenStep::Await { v4: !self.v4_broken, v6: !self.v6_broken, publish }
        }
    }

    /// The socket that carries a message: that of the family of its peer
    /// address. A socket that was not created is an error.
    pub fn send(&self, msg: &ChannelMessage) -> (r: Result<Family, String>)
        ensures
            match r {
                Ok(family) => family == msg.ip.family() && match family {
                    Family::V4 => self@.v4_socket,
                    Family::V6 => self@.v6_socket,
                },
                Err(message) => message@ == "Socket not initialized"@ && match msg.ip.family() {
                    Family::V4 => !self@.v4_socket,
                    Family::V6 => !self@.v6_socket,
                },
            },
    {
        let family = msg.ip.family();
        let present = match family {
            Family::V4 => self.v4_socket,
            Family::V6 => self.v6_socket,
        };
        if present {
            Ok(family)
        } else {
            Err(String::from_str("Socket not initialized"))
        }
    }
}

/// A response on its way to the sink of the query it answers.
pub struct Delivery {
    pub sink: Sender<Option<(Response, u32)>>,
    pub query: Query,
    pub response: Response,
    pub ttl: u32,
}

impl View for Delivery {
    type V = (QueryView, ResponseView, u32);

    open spec fn view(&self) -> (QueryView, ResponseView, u32) {
        (self.query@, self.response@, self.ttl)
    }
}

/// The values of the deliveries of a list, in order.
pub open spec fn deliveries_view(deliveries: Seq<Delivery>) -> Seq<(QueryView, ResponseView, u32)> {
    Seq::new(deliveries.len(), |i: int| deliveries[i]@)
}

/// The triplets of the records whose fingerprint is in flight, in the order
/// of the records.
pub open spec fn delivered(records: Seq<RecordView>, in_flight: Set<QueryView>, now: u64) -> Seq<
    (QueryView, ResponseView, u32),
>
    decreases records.len(),
{
    if records.len() == 0 {
        Seq::empty()
    } else {
        let before = delivered(records.drop_last(), in_flight, now);
        match triplet_of(records.last(), now) {
            Some(t) => if in_flight.contains(t.0) {
                before.push(t)
            } else {
                before
            },
            None => before,
        }
    }
}

/// What a response leads to: the triplets of its answers and then of its
/// additional records, as far as their fingerprint is in flight.
pub open spec fn response_deliveries(m: MessageView, in_flight: Set<QueryView>, now: u64) -> Seq<
    (QueryView, ResponseView, u32),
> {
    delivered(m.answers, in_flight, now) + delivered(m.additional_records, in_flight, now)
}

/// Appends the deliveries that the records of one section lead to.
fn deliver_section(records: &Vec<Record>, tracker: &Tracker, now: u64, out: &mut Vec<Delivery>)
    ensures
        deliveries_view(final(out)@) == deliveries_view(old(out)@) + delivered(
            records_view(records@),
            tracker@,
            now,
        ),
{
    let ghost start = deliveries_view(out@);
    let ghost rv = records_view(records@);
    let mut i: usize = 0;
    assert(rv.take(0) =~= Seq::empty());
    assert(deliveries_view(out@) =~= start + delivered(rv.take(0), tracker@, now));
    while i < records.len()
        invariant
            i <= records.len(),
            rv == records_view(records@),
            deliveries_view(out@) == start + delivered(rv.take(i as int), tracker@, now),
        decreases records.len() - i,
    {
        proof {
            let next = rv.take(i as int + 1);
            assert(next.drop_last() =~= rv.take(i as int));
            assert(next.last() == records@[i as int]@);
        }
        let ghost before = deliveries_view(out@);
        match prepare_triplet_from_record(&records[i], now) {
            Some((query, response, ttl)) => {
                match tracker.get(&query) {
                    Some(sink) => {
                        let d = Delivery { sink, query, response, ttl };
                        out.push(d);
                        assert(deliveries_view(out@) =~= before.push(d@));
                        assert(deliveries_view(out@) =~= start + delivered(
                            rv.take(i as int + 1),
                            tracker@,
                            now,
                        ));
                    },
                    None => {},
                }
            },
            None => {},
        }
        i += 1;
    }
    assert(rv.take(records.len() as int) =~= rv);
}

/// What a response leads to: for each answer and each additional record
/// that maps to a triplet whose fingerprint is in flight, the delivery of
/// the response and its lifetime to the sink of that query.
pub fn handle_response(packet: &Message, tracker: &Tracker, now: u64) -> (r: Vec<Delivery>)
    ensures
        deliveries_view(r@) == response_deliveries(packet@, tracker@, now),
{
    let mut out: Vec<Delivery> = Vec::new();
    assert(deliveries_view(out@) =~= Seq::empty());
    deliver_section(&packet.answers, tracker, now, &mut out);
    deliver_section(&packet.additional_records, tracker, now, &mut out);
    assert(deliveries_view(out@) =~= response_deliveries(packet@, tracker@, now));
    out
}

/// The questions that ask for a unicast response, or those that do not, in
/// their order.
pub open spec fn picked(questions: Seq<InquiryView>, unicast: bool) -> Seq<InquiryView>
    decreases questions.len(),
{
    if questions.len() == 0 {
        Seq::empty()
    } else {
        let before = picked(questions.drop_last(), unicast);
        if questions.last().unicast_response == unicast {
            before.push(questions.last())
        } else {
            before
        }
    }
}

/// The reply after known-answer suppression. Suppression runs only where
/// the reply holds both answers and additional records.
pub open spec fn finished(
    reply: MessageView,
    known_answers: Seq<RecordView>,
    known_additional: Seq<RecordView>,
) -> MessageView {
    if reply.answers.len() > 0 && reply.additional_records.len() > 0 {
        MessageView {
            response: reply.response,
            questions: reply.questions,
            answers: kept(reply.answers, known_answers),
            additional_records: kept(reply.additional_records, known_additional),
        }
    } else {
        reply
    }
}

/// The datagram of a reply: the reply after suppression, trimmed to the
/// largest datagram; none where it cannot be written.
pub open spec fn reply_datagram(
    reply: MessageView,
    known_answers: Seq<RecordView>,
    known_additional: Seq<RecordView>,
) -> Option<Seq<u8>> {
    let m = reduced(finished(reply, known_answers, known_additional), MAX_PACKET_SIZE);
    if fits(m, MAX_PACKET_SIZE) {
        encoding(m)
    } else {
        None
    }
}

/// Where a reply holds both answers and additional records, a prepared
/// answer that a known answer of the asker makes superfluous is absent from
/// the answers that go out.
pub proof fn lemma_reply_omits_known_answer(
    reply: MessageView,
    known_answers: Seq<RecordView>,
    known_additional: Seq<RecordView>,
    p: RecordView,
    k: RecordView,
)
    requires
        reply.answers.len() > 0,
        reply.additional_records.len() > 0,
        known_answers.contains(k),
        crate::responder::known_by(p, k),
    ensures
        !reduced(
            finished(reply, known_answers, known_additional),
            MAX_PACKET_SIZE,
        ).answers.contains(p),
{
    let done = finished(reply, known_answers, known_additional);
    let sent = reduced(done, MAX_PACKET_SIZE);
    crate::responder::lemma_known_answer_absent(reply.answers, known_answers, p, k);
    crate::codec::lemma_reduced_shape(done, MAX_PACKET_SIZE);
    if sent.answers.contains(p) {
        let i = choose|i: int| 0 <= i < sent.answers.len() && sent.answers[i] == p;
        assert(done.answers[i] == p);
    }
}

/// The bytes of an optional datagram.
pub open spec fn datagram_view(d: Option<Vec<u8>>) -> Option<Seq<u8>> {
    match d {
        Some(b) => Some(b@),
        None => None,
    }
}

/// Turns a reply into a datagram: runs known-answer suppression where the
/// reply holds both answers and additional records, then trims the reply to
/// the largest datagram and writes it.
pub fn finish_reply(reply: Message, known_answers: &Vec<Record>, known_additional: &Vec<Record>) -> (r:
    Option<Vec<u8>>)
    ensures
        datagram_view(r) == reply_datagram(
            reply@,
            records_view(known_answers@),
            records_view(known_additional@),
        ),
{
    let mut reply = reply;
    let ghost given = reply@;
    if reply.answers.len() > 0 && reply.additional_records.len() > 0 {
        Responder::suppress_known_answers(&mut reply.answers, known_answers);
        Responder::suppress_known_answers(&mut reply.additional_records, known_additional);
        assert(reply@ =~= finished(
            given,
            records_view(known_answers@),
            records_view(known_additional@),
        ));
    }
    serialize_packet(&mut reply)
}

/// The replies to an inbound query: one for the questions that ask for a
/// unicast response, one for the others.
#[derive(Debug, PartialEq, Eq)]
pub struct QueryReplies {
    /// The datagram for the peer that asked.
    pub unicast: Option<Vec<u8>>,
    /// The datagram for both multicast groups.
    pub multicast: Option<Vec<u8>>,
}

/// Whether `datagram` answers the questions of `packet` that ask for a
/// unicast response (or, with `unicast` false, the others): nothing where
/// there is no such question; else the datagram of the reply that the
/// responder builds for them. Known answers are taken from the answers of
/// the packet; for the additional records of a multicast reply, from its
/// additional records.
pub open spec fn answers_part(
    all: Map<Seq<char>, Map<Seq<char>, InstanceView>>,
    local: LocalView,
    packet: MessageView,
    unicast: bool,
    datagram: Option<Seq<u8>>,
) -> bool {
    let questions = picked(packet.questions, unicast);
    if questions.len() == 0 {
        datagram is None
    } else {
        exists|orders: Seq<Seq<Seq<char>>>|
            orders_fit(all, questions, orders) && datagram == reply_datagram(
                #[trigger] reply_to(all, local, questions, orders),
                packet.answers,
                if unicast {
                    packet.answers
                } else {
                    packet.additional_records
                },
            )
    }
}

/// Copies the questions that ask for a unicast response, or the others.
fn pick_questions(questions: &Vec<Inquiry>, unicast: bool) -> (r: Vec<Inquiry>)
    ensures
        questions_view(r@) == picked(questions_view(questions@), unicast),
{
    let mut out: Vec<Inquiry> = Vec::new();
    let ghost qv = questions_view(questions@);
    let mut i: usize = 0;
    assert(qv.take(0) =~= Seq::empty());
    assert(questions_view(out@) =~= Seq::empty());
    while i < questions.len()
        invariant
            i <= questions.len(),
            qv == questions_view(questions@),
            questions_view(out@) == picked(qv.take(i as int), unicast),
        decreases questions.len() - i,
    {
        proof {
            let next = qv.take(i as int + 1);
            assert(next.drop_last() =~= qv.take(i as int));
            assert(next.last() == questions@[i as int]@);
        }
        let ghost before = questions_view(out@);
        if questions[i].unicast_response == unicast {
            let q = questions[i].duplicate();
            out.push(q);
            assert(questions_view(out@) =~= before.push(q@));
        }
        i += 1;
    }
    assert(qv.take(questions.len() as int) =~= qv);
    out
}

/// Answers an inbound query.
///
/// The questions are parted into those that ask for a unicast response and
/// the others. For each part that is not empty the responder builds a
/// reply, which is then turned into a datagram as [`finish_reply`] does.
pub fn handle_equery(responder: &Responder, local: &LocalHost, packet: &Message) -> (r: QueryReplies)
    ensures
        answers_part(responder@, local@, packet@, true, datagram_view(r.unicast)),
        answers_part(responder@, local@, packet@, false, datagram_view(r.multicast)),
{
    let unicast_questions = pick_questions(&packet.questions, true);
    let multicast_questions = pick_questions(&packet.questions, false);
    let mut unicast: Option<Vec<u8>> = None;
    let mut multicast: Option<Vec<u8>> = None;
    if unicast_questions.len() > 0 {
        let reply = responder.answer_queries(unicast_questions, local);
        unicast = finish_reply(reply, &packet.answers, &packet.answers);
    }
    if multicast_questions.len() > 0 {
        let reply = responder.answer_queries(multicast_questions, local);
        multicast = finish_reply(reply, &packet.answers, &packet.additional_records);
    }
    QueryReplies { unicast, multicast }
}

/// What a received datagram leads to.
pub enum Action {
    /// Hand the response and its lifetime to the sink of the query.
    Deliver(Delivery),
    /// Send the datagram to the peer named.
    Send(ChannelMessage),
}

/// Mathematical value of an [`Action`].
pub enum ActionView {
    Deliver(QueryView, ResponseView, u32),
    Send(PeerAddr, Seq<u8>),
}

impl View for Action {
    type V = ActionView;

    open spec fn view(&self) -> ActionView {
        match self {
            Action::Deliver(d) => ActionView::Deliver(d.query@, d.response@, d.ttl),
            Action::Send(m) => ActionView::Send(m.ip, m.bytes@),
        }
    }
}

/// The values of the actions of a list, in order.
pub open spec fn actions_view(actions: Seq<Action>) -> Seq<ActionView> {
    Seq::new(actions.len(), |i: int| actions[i]@)
}

/// The deliveries as actions.
pub open spec fn deliver_actions(deliveries: Seq<(QueryView, ResponseView, u32)>) -> Seq<ActionView> {
    Seq::new(
        deliveries.len(),
        |i: int| ActionView::Deliver(deliveries[i].0, deliveries[i].1, deliveries[i].2),
    )
}

/// The sends that the replies to a query lead to: the unicast reply to the
/// peer that asked, then the multicast reply to the IPv4 group and to the
/// IPv6 group.
pub open spec fn send_actions(peer: PeerAddr, unicast: Option<Seq<u8>>, multicast: Option<Seq<u8>>) -> Seq<
    ActionView,
> {
    let first = match unicast {
        Some(b) => seq![ActionView::Send(peer, b)],
        None => Seq::empty(),
    };
    let second = match multicast {
        Some(b) => seq![
            ActionView::Send(spec_multicast_addr_v4(), b),
            ActionView::Send(spec_multicast_addr_v6(), b),
        ],
        None => Seq::empty(),
    };
    first + second
}

/// Whether `actions` is what the message leads to: for a response, its
/// deliveries; for a query, the sends of its replies.
pub open spec fn handles(
    all: Map<Seq<char>, Map<Seq<char>, InstanceView>>,
    local: LocalView,
    in_flight: Set<QueryView>,
    peer: PeerAddr,
    message: MessageView,
    now: u64,
    actions: Seq<ActionView>,
) -> bool {
    if message.response {
        actions == deliver_actions(response_deliveries(message, in_flight, now))
    } else {
        exists|unicast: Option<Seq<u8>>, multicast: Option<Seq<u8>>|
            answers_part(all, local, message, true, unicast) && answers_part(
                all,
                local,
                message,
                false,
                multicast,
            ) && actions == #[trigger] send_actions(peer, unicast, multicast)
    }
}

/// Decides what a parsed message leads to.
///
/// A response leads to the deliveries of [`handle_response`]. Any other
/// message is a query: its replies, as [`handle_equery`] builds them, go to
/// the peer that asked and to both multicast groups.
pub fn handle_packet(
    responder: &Responder,
    local: &LocalHost,
    tracker: &Tracker,
    peer: PeerAddr,
    packet: &Message,
    now: u64,
) -> (r: Vec<Action>)
    ensures
        handles(responder@, local@, tracker@, peer, packet@, now, actions_view(r@)),
{
    let mut out: Vec<Action> = Vec::new();
    if packet.response {
        let mut deliveries = handle_response(packet, tracker, now);
        let ghost dv = deliveries_view(deliveries@);
        let ghost total = deliveries@.len();
        // The deliveries are moved out from the back and put in again in order.
        let mut reversed: Vec<Delivery> = Vec::new();
        while deliveries.len() > 0
            invariant
                deliveries@.len() + reversed@.len() == total,
                forall|j: int|
                    0 <= j < deliveries@.len() ==> (#[trigger] deliveries@[j])@ == dv[j],
                forall|j: int|
                    0 <= j < reversed@.len() ==> (#[trigger] reversed@[j])@ == dv[total - 1 - j],
                dv.len() == total,
            decreases deliveries@.len(),
        {
            let d = deliveries.pop().unwrap();
            reversed.push(d);
        }
        while reversed.len() > 0
            invariant
                out@.len() + reversed@.len() == total,
                dv.len() == total,
                forall|j: int|
                    0 <= j < reversed@.len() ==> (#[trigger] reversed@[j])@ == dv[total - 1 - j],
                forall|j: int|
                    0 <= j < out@.len() ==> (#[trigger] out@[j])@ == ActionView::Deliver(
                        dv[j].0,
                        dv[j].1,
                        dv[j].2,
                    ),
            decreases reversed@.len(),
        {
            let d = reversed.pop().unwrap();
            out.push(Action::Deliver(d));
        }
        assert(actions_view(out@) =~= deliver_actions(dv));
    } else {
        let replies = handle_equery(responder, local, packet);
        let ghost unicast = datagram_view(replies.unicast);
        let ghost multicast = datagram_view(replies.multicast);
        match replies.unicast {
            Some(bytes) => {
                out.push(Action::Send(ChannelMessage { ip: peer, bytes }));
            },
            None => {},
        }
        match replies.multicast {
            Some(bytes) => {
                let copy = copy_range(&bytes, 0, bytes.len());
                assert(copy@ =~= bytes@);
                out.push(Action::Send(ChannelMessage { ip: multicast_addr_v4(), bytes: copy }));
                out.push(Action::Send(ChannelMessage { ip: multicast_addr_v6(), bytes }));
            },
            None => {},
        }
        assert(actions_view(out@) =~= send_actions(peer, unicast, multicast));
    }
    out
}

/// Whether `actions` is what the datagram leads to: nothing where it is no
/// DNS packet, else what its message leads to.
pub open spec fn handles_datagram(
    all: Map<Seq<char>, Map<Seq<char>, InstanceView>>,
    local: LocalView,
    in_flight: Set<QueryView>,
    peer: PeerAddr,
    bytes: Seq<u8>,
    now: u64,
    actions: Seq<ActionView>,
) -> bool {
    match parsed_message(bytes) {
        None => actions.len() == 0,
        Some(message) => handles(all, local, in_flight, peer, message, now, actions),
    }
}

/// Decides what a received datagram leads to.
///
/// A datagram that is no DNS packet is skipped. Any other is parsed, and
/// its message is handled as [`handle_packet`] does.
pub fn handle_message(
    responder: &Responder,
    local: &LocalHost,
    tracker: &Tracker,
    msg: &ChannelMessage,
    now: u64,
) -> (r: Vec<Action>)
    ensures
        handles_datagram(responder@, local@, tracker@, msg.ip, msg.bytes@, now, actions_view(r@)),
{
    match decode(msg.bytes.as_slice()) {
        None => Vec::new(),
        Some(packet) => handle_packet(responder, local, tracker, msg.ip, &packet, now),
    }
}

} // verus!
