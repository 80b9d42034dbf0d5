use home_web::codec::{decode, encode};
use home_web::instance::Instance;
use home_web::listener::{
    finish_reply, handle_equery, handle_message, handle_packet, handle_response, multicast_addr_v4,
    multicast_addr_v6, Action, ChannelMessage, Family, ListenEvent, ListenStep, Listener, PeerAddr,
};
use home_web::record::{Inquiry, Message, Record, RecordData, TxtEntry};
use home_web::registry::Registry;
use home_web::responder::{LocalHost, Responder};
use home_web::tracker::Tracker;
use home_web::types::{Query, QueryType, Response, ResponseInner};
use tokio::sync::mpsc::channel;

fn peer() -> PeerAddr {
    PeerAddr::V4 { address: 0xc0a8_0107, port: 49152 }
}

fn datagram(ip: PeerAddr) -> ChannelMessage {
    ChannelMessage { ip, bytes: vec![1, 2, 3] }
}

#[test]
fn the_limits_of_the_listener() {
    assert_eq!(home_web::listener::RECEIVE_BUFFER_SIZE, 1472);
    assert_eq!(home_web::listener::WORK_QUEUE_CAPACITY, 50);
    assert_eq!(home_web::listener::HOP_LIMIT, 255);
    assert_eq!(home_web::codec::MAX_PACKET_SIZE, 1472);
    assert_eq!(home_web::querier::REFRESH_PERIOD_SECS, 60);
    assert_eq!(home_web::querier::REFRESH_QUERY_SECS, 5);
}

#[test]
fn the_multicast_groups_are_those_of_mdns() {
    assert_eq!(multicast_addr_v4(), PeerAddr::V4 { address: u32::from_be_bytes([224, 0, 0, 251]), port: 5353 });
    assert_eq!(
        multicast_addr_v6(),
        PeerAddr::V6 { address: 0xff02_0000_0000_0000_0000_0000_0000_00fb, port: 5353, flowinfo: 0, scope_id: 0 }
    );
    assert_eq!(multicast_addr_v4().family(), Family::V4);
    assert_eq!(multicast_addr_v6().family(), Family::V6);
}

#[test]
fn a_listener_needs_one_socket() {
    assert_eq!(
        Listener::new(false, false).unwrap_err(),
        "Failed to create both IPv4 and IPv6 sockets"
    );
    assert!(Listener::new(true, false).is_ok());
    assert!(Listener::new(false, true).is_ok());
    assert!(Listener::new(true, true).is_ok());
}

#[test]
fn a_message_goes_out_on_the_socket_of_its_family() {
    let both = Listener::new(true, true).unwrap();
    assert_eq!(both.send(&datagram(multicast_addr_v4())), Ok(Family::V4));
    assert_eq!(both.send(&datagram(multicast_addr_v6())), Ok(Family::V6));
    let only_v4 = Listener::new(true, false).unwrap();
    assert_eq!(only_v4.send(&datagram(peer())), Ok(Family::V4));
    assert_eq!(only_v4.send(&datagram(multicast_addr_v6())), Err("Socket not initialized".to_string()));
    let only_v6 = Listener::new(false, true).unwrap();
    assert_eq!(only_v6.send(&datagram(peer())), Err("Socket not initialized".to_string()));
}

#[test]
fn the_receive_loop_publishes_and_awaits() {
    let mut listener = Listener::new(true, true).unwrap();
    assert_eq!(listener.listen(None), ListenStep::Await { v4: true, v6: true, publish: None });
    assert_eq!(
        listener.listen(Some(ListenEvent::Received(datagram(peer())))),
        ListenStep::Await { v4: true, v6: true, publish: Some(datagram(peer())) }
    );
}

#[test]
fn the_receive_loop_ends_when_both_sockets_are_broken() {
    let mut listener = Listener::new(true, true).unwrap();
    assert_eq!(
        listener.listen(Some(ListenEvent::Failed(Family::V6))),
        ListenStep::Await { v4: true, v6: false, publish: None }
    );
    assert_eq!(
        listener.listen(Some(ListenEvent::Received(datagram(peer())))),
        ListenStep::Await { v4: true, v6: false, publish: Some(datagram(peer())) }
    );
    assert_eq!(
        listener.listen(Some(ListenEvent::Failed(Family::V4))),
        ListenStep::Stop("Both IPv4 and IPv6 sockets are broken".to_string())
    );

    let mut one = Listener::new(false, true).unwrap();
    assert_eq!(one.listen(None), ListenStep::Await { v4: false, v6: true, publish: None });
    assert_eq!(
        one.listen(Some(ListenEvent::Failed(Family::V6))),
        ListenStep::Stop("Both IPv4 and IPv6 sockets are broken".to_string())
    );
}

fn local() -> LocalHost {
    LocalHost { hostname: "node-a.local".to_string(), ipv4: vec![0xc0a8_0105], ipv6: vec![1] }
}

fn node_a() -> Responder {
    let mut registry = Registry::new();
    registry.register_device(
        Instance::new(
            "printer._homecast._tcp.local".to_string(),
            8080,
            vec![("color".to_string(), "black".to_string())],
        )
        .unwrap(),
    );
    Responder::new(registry)
}

fn ptr_question(unicast: bool) -> Inquiry {
    Inquiry {
        qname: "_homecast._tcp.local".to_string(),
        qtype: Some(QueryType::PTR),
        unicast_response: unicast,
    }
}

fn query(questions: Vec<Inquiry>, answers: Vec<Record>) -> Message {
    Message { response: false, questions, answers, additional_records: vec![] }
}

fn ptr_record(ttl: u32) -> Record {
    Record {
        name: "_homecast._tcp.local".to_string(),
        class_in: true,
        ttl,
        data: RecordData::PTR("printer._homecast._tcp.local".to_string()),
    }
}

fn srv_record() -> Record {
    Record {
        name: "printer._homecast._tcp.local".to_string(),
        class_in: true,
        ttl: 120,
        data: RecordData::SRV { priority: 0, weight: 0, port: 8080, target: "node-a.local".to_string() },
    }
}

fn txt_record() -> Record {
    Record {
        name: "printer._homecast._tcp.local".to_string(),
        class_in: true,
        ttl: 120,
        data: RecordData::TXT {
            entries: vec![TxtEntry { key: b"color".to_vec(), value: Some(b"black".to_vec()) }],
        },
    }
}

fn full_reply() -> Message {
    Message {
        response: true,
        questions: vec![],
        answers: vec![ptr_record(120)],
        additional_records: vec![srv_record(), txt_record()],
    }
}

fn sends(actions: Vec<Action>) -> Vec<ChannelMessage> {
    actions
        .into_iter()
        .map(|action| match action {
            Action::Send(message) => message,
            Action::Deliver(_) => panic!("a query leads to no delivery"),
        })
        .collect()
}

#[test]
fn unicast_and_multicast_questions_are_answered_apart() {
    let packet = query(vec![ptr_question(true), ptr_question(false)], vec![]);
    let actions =
        handle_packet(&node_a(), &local(), &Tracker::new(), peer(), &packet, 0);
    let sent = sends(actions);
    let bytes = encode(&full_reply()).unwrap();
    assert_eq!(
        sent,
        vec![
            ChannelMessage { ip: peer(), bytes: bytes.clone() },
            ChannelMessage { ip: multicast_addr_v4(), bytes: bytes.clone() },
            ChannelMessage { ip: multicast_addr_v6(), bytes },
        ]
    );
}

#[test]
fn a_query_with_multicast_questions_only_gets_no_unicast_reply() {
    let packet = query(vec![ptr_question(false)], vec![]);
    let replies = handle_equery(&node_a(), &local(), &packet);
    assert_eq!(replies.unicast, None);
    assert_eq!(replies.multicast, encode(&full_reply()));
    let sent = sends(handle_packet(&node_a(), &local(), &Tracker::new(), peer(), &packet, 0));
    assert_eq!(sent.len(), 2);
    assert_eq!(sent[0].ip, multicast_addr_v4());
    assert_eq!(sent[1].ip, multicast_addr_v6());

    let only_unicast = query(vec![ptr_question(true)], vec![]);
    let replies = handle_equery(&node_a(), &local(), &only_unicast);
    assert_eq!(replies.unicast, encode(&full_reply()));
    assert_eq!(replies.multicast, None);

    let no_question = query(vec![], vec![]);
    let replies = handle_equery(&node_a(), &local(), &no_question);
    assert_eq!((replies.unicast, replies.multicast), (None, None));
}

#[test]
fn a_known_answer_is_left_out_of_the_reply() {
    let packet = query(vec![ptr_question(false)], vec![ptr_record(100)]);
    let replies = handle_equery(&node_a(), &local(), &packet);
    let reply = decode(&replies.multicast.unwrap()).unwrap();
    assert!(reply.answers.is_empty());
    assert_eq!(reply.additional_records, vec![srv_record(), txt_record()]);

    let stale = query(vec![ptr_question(false)], vec![ptr_record(59)]);
    let replies = handle_equery(&node_a(), &local(), &stale);
    assert_eq!(decode(&replies.multicast.unwrap()).unwrap(), full_reply());
}

#[test]
fn the_known_answers_for_additional_records_differ_by_branch() {
    let mut packet = query(vec![ptr_question(true), ptr_question(false)], vec![srv_record()]);
    packet.additional_records = vec![txt_record()];
    let replies = handle_equery(&node_a(), &local(), &packet);
    let unicast = decode(&replies.unicast.unwrap()).unwrap();
    assert_eq!(unicast.answers, vec![ptr_record(120)]);
    assert_eq!(unicast.additional_records, vec![txt_record()]);
    let multicast = decode(&replies.multicast.unwrap()).unwrap();
    assert_eq!(multicast.answers, vec![ptr_record(120)]);
    assert_eq!(multicast.additional_records, vec![srv_record()]);
}

#[test]
fn a_reply_without_additional_records_is_not_suppressed() {
    let reply = Message {
        response: true,
        questions: vec![],
        answers: vec![txt_record()],
        additional_records: vec![],
    };
    let bytes = finish_reply(reply.clone(), &vec![txt_record()], &vec![]);
    assert_eq!(bytes, encode(&reply));

    let both = finish_reply(full_reply(), &vec![ptr_record(120)], &vec![txt_record()]).unwrap();
    let sent = decode(&both).unwrap();
    assert!(sent.answers.is_empty());
    assert_eq!(sent.additional_records, vec![srv_record()]);
}

#[test]
fn a_response_is_delivered_to_the_queries_in_flight() {
    let mut tracker = Tracker::new();
    let (sink, mut receiver) = channel::<Option<(Response, u32)>>(8);
    tracker.insert(Query::new("_homecast._tcp.local", QueryType::PTR), sink.clone());
    tracker.insert(Query::new("printer._homecast._tcp.local", QueryType::TXT), sink);

    let now = 1_000_000_000u64;
    let deliveries = handle_response(&full_reply(), &tracker, now);
    assert_eq!(deliveries.len(), 2);
    assert_eq!(deliveries[0].query, Query::new("_homecast._tcp.local", QueryType::PTR));
    assert_eq!(
        deliveries[0].response.inner,
        ResponseInner::PTR("printer._homecast._tcp.local".to_string())
    );
    assert_eq!(deliveries[0].response.ends_at, 121_000_000_000);
    assert_eq!(deliveries[0].ttl, 120);
    assert_eq!(deliveries[1].query, Query::new("printer._homecast._tcp.local", QueryType::TXT));
    assert_eq!(
        deliveries[1].response.inner,
        ResponseInner::TXT { strings: vec!["color=black".to_string()] }
    );

    for delivery in deliveries {
        delivery.sink.try_send(Some((delivery.response, delivery.ttl))).unwrap();
    }
    let (first, ttl) = receiver.try_recv().unwrap().unwrap();
    assert_eq!(first.inner, ResponseInner::PTR("printer._homecast._tcp.local".to_string()));
    assert_eq!(ttl, 120);
    assert!(receiver.try_recv().unwrap().is_some());
    assert!(receiver.try_recv().is_err());
}

#[test]
fn a_response_without_a_waiting_query_leads_to_nothing() {
    let tracker = Tracker::new();
    assert!(handle_response(&full_reply(), &tracker, 0).is_empty());
    let actions = handle_packet(&node_a(), &local(), &tracker, peer(), &full_reply(), 0);
    assert!(actions.is_empty());
}

#[test]
fn a_received_datagram_is_parsed_and_handled() {
    let responder = node_a();
    let mut tracker = Tracker::new();
    let (sink, _receiver) = channel::<Option<(Response, u32)>>(1);
    tracker.insert(Query::new("printer._homecast._tcp.local", QueryType::SRV), sink);

    let garbage = ChannelMessage { ip: peer(), bytes: vec![0xff, 0x00] };
    assert!(handle_message(&responder, &local(), &tracker, &garbage, 0).is_empty());

    let response = ChannelMessage { ip: peer(), bytes: encode(&full_reply()).unwrap() };
    let actions = handle_message(&responder, &local(), &tracker, &response, 7);
    assert_eq!(actions.len(), 1);
    match &actions[0] {
        Action::Deliver(delivery) => {
            assert_eq!(delivery.query, Query::new("printer._homecast._tcp.local", QueryType::SRV));
            assert_eq!(
                delivery.response.inner,
                ResponseInner::SRV { port: 8080, target: "node-a.local".to_string() }
            );
            assert_eq!(delivery.response.ends_at, 120_000_000_007);
        }
        Action::Send(_) => panic!("a response leads to no send"),
    }

    let question = ChannelMessage {
        ip: peer(),
        bytes: encode(&query(vec![ptr_question(true)], vec![])).unwrap(),
    };
    let sent = sends(handle_message(&responder, &local(), &tracker, &question, 0));
    assert_eq!(sent, vec![ChannelMessage { ip: peer(), bytes: encode(&full_reply()).unwrap() }]);
}
