use home_web::api::{
    split_duration, Device, DurationSplit, HomeWeb, CACHE_IDLE_TIMEOUT_SECS, CACHE_MAX_CAPACITY,
    CACHE_MAX_VALUES_PER_KEY, CACHE_TIME_TO_LIVE_SECS,
};
use home_web::codec::encode;
use home_web::instance::Instance;
use home_web::listener::{handle_message, Action, ChannelMessage, Family, ListenStep, PeerAddr};
use home_web::querier::{QueryStart, QueryStep};
use home_web::record::{Inquiry, Message};
use home_web::responder::LocalHost;
use home_web::types::{Address, Query, QueryType, Response, ResponseInner};
use tokio::sync::mpsc::channel;

fn response(inner: ResponseInner) -> Response {
    Response { inner, ends_at: 0 }
}

fn ptr(target: &str) -> Response {
    response(ResponseInner::PTR(target.to_string()))
}

fn srv(port: u16, target: &str) -> Response {
    response(ResponseInner::SRV { port, target: target.to_string() })
}

fn txt(strings: &[&str]) -> Response {
    response(ResponseInner::TXT { strings: strings.iter().map(|s| s.to_string()).collect() })
}

fn pairs(items: &[(&str, &str)]) -> Vec<(String, String)> {
    items.iter().map(|(k, v)| (k.to_string(), v.to_string())).collect()
}

#[test]
fn the_cache_is_configured_as_the_node_needs_it() {
    assert_eq!(CACHE_IDLE_TIMEOUT_SECS, 40);
    assert_eq!(CACHE_MAX_CAPACITY, 200);
    assert_eq!(CACHE_MAX_VALUES_PER_KEY, 2);
    assert_eq!(CACHE_TIME_TO_LIVE_SECS, 120);
}

#[test]
fn the_time_of_a_resolution_is_shared_among_its_queries() {
    assert_eq!(
        split_duration(4_000_000_000),
        DurationSplit { srv: 800_000_000, txt: 1_200_000_000, a: 1_000_000_000, aaaa: 1_000_000_000 }
    );
    assert_eq!(split_duration(0), DurationSplit { srv: 0, txt: 0, a: 0, aaaa: 0 });
    assert_eq!(split_duration(7), DurationSplit { srv: 1, txt: 2, a: 1, aaaa: 1 });
    assert_eq!(split_duration(19), DurationSplit { srv: 3, txt: 5, a: 4, aaaa: 4 });
    let all = split_duration(u128::MAX);
    assert_eq!(all.srv, u128::MAX / 5);
    assert_eq!(all.txt, u128::MAX / 10 * 3 + 1);
    assert_eq!(all.a, u128::MAX / 4);
}

#[test]
fn a_discovery_gives_the_targets_of_the_ptr_responses() {
    let responses = vec![
        ptr("printer._homecast._tcp.local"),
        srv(1, "x.local"),
        ptr("scanner._homecast._tcp.local"),
    ];
    assert_eq!(
        HomeWeb::get_devices(&responses),
        vec!["printer._homecast._tcp.local", "scanner._homecast._tcp.local"]
    );
    assert_eq!(HomeWeb::get_devices(&vec![]), Vec::<String>::new());
}

#[test]
fn the_first_response_decides_the_srv_result() {
    assert_eq!(
        HomeWeb::resolve_srv(&vec![srv(8080, "node-a.local"), srv(1, "other.local")]),
        Some((8080, "node-a.local".to_string()))
    );
    assert_eq!(HomeWeb::resolve_srv(&vec![ptr("x.local"), srv(8080, "node-a.local")]), None);
    assert_eq!(HomeWeb::resolve_srv(&vec![]), None);
}

#[test]
fn attributes_are_read_from_strings_with_one_equals_sign() {
    let responses = vec![
        txt(&["color=black", "flag", "a=b=c", "duplex=yes", "=", "k="]),
        ptr("x.local"),
        txt(&["color=white", "size=a4"]),
    ];
    assert_eq!(
        HomeWeb::resolve_txt(&responses),
        pairs(&[("color", "white"), ("duplex", "yes"), ("", ""), ("k", ""), ("size", "a4")])
    );
    assert_eq!(HomeWeb::resolve_txt(&vec![]), vec![]);
}

#[test]
fn addresses_are_required() {
    let a = |address: u32| response(ResponseInner::A { address });
    let aaaa = |address: u128| response(ResponseInner::AAAA { address });
    assert_eq!(HomeWeb::resolve_a(&vec![a(1), aaaa(9), a(2)]), Some(vec![1, 2]));
    assert_eq!(HomeWeb::resolve_a(&vec![aaaa(9)]), None);
    assert_eq!(HomeWeb::resolve_a(&vec![]), None);
    assert_eq!(HomeWeb::resolve_aaaa(&vec![a(1), aaaa(9), aaaa(8)]), Some(vec![9, 8]));
    assert_eq!(HomeWeb::resolve_aaaa(&vec![a(1)]), None);
}

#[test]
fn a_device_is_resolved_from_the_four_answers() {
    let name = "printer._homecast._tcp.local".to_string();
    let srv_responses = vec![srv(8080, "node-a.local")];
    let txt_responses = vec![txt(&["color=black"])];
    let a_responses = vec![response(ResponseInner::A { address: 0xc0a8_0105 })];
    let aaaa_responses = vec![response(ResponseInner::AAAA { address: 1 })];
    assert_eq!(
        HomeWeb::resolve_device(name.clone(), &srv_responses, &txt_responses, &a_responses, &aaaa_responses),
        Some(Device {
            name: name.clone(),
            port: 8080,
            host: "node-a.local".to_string(),
            addresses: vec![Address::V4(0xc0a8_0105), Address::V6(1)],
            metadata: pairs(&[("color", "black")]),
        })
    );
    assert_eq!(
        HomeWeb::resolve_device(name.clone(), &srv_responses, &vec![], &a_responses, &aaaa_responses)
            .unwrap()
            .metadata,
        vec![]
    );
    assert_eq!(
        HomeWeb::resolve_device(name.clone(), &vec![], &txt_responses, &a_responses, &aaaa_responses),
        None
    );
    assert_eq!(
        HomeWeb::resolve_device(name.clone(), &srv_responses, &txt_responses, &vec![], &aaaa_responses),
        None
    );
    assert_eq!(
        HomeWeb::resolve_device(name, &srv_responses, &txt_responses, &a_responses, &vec![]),
        None
    );
}

#[test]
fn a_node_needs_one_socket() {
    assert_eq!(
        HomeWeb::new(false, false).err(),
        Some("Failed to create both IPv4 and IPv6 sockets".to_string())
    );
    let mut node = HomeWeb::new(true, false).unwrap();
    assert_eq!(node.listen(None), ListenStep::Await { v4: true, v6: false, publish: None });
    let to_v6 = ChannelMessage {
        ip: PeerAddr::V6 { address: 1, port: 5353, flowinfo: 0, scope_id: 0 },
        bytes: vec![],
    };
    assert_eq!(node.send(&to_v6), Err("Socket not initialized".to_string()));
    let to_v4 = ChannelMessage { ip: PeerAddr::V4 { address: 1, port: 5353 }, bytes: vec![] };
    assert_eq!(node.send(&to_v4), Ok(Family::V4));
}

fn printer() -> Instance {
    Instance::new("printer._homecast._tcp.local".to_string(), 8080, pairs(&[("color", "black")]))
        .unwrap()
}

fn ask(node: &mut HomeWeb, query: &Query, now: u64) -> (Vec<u8>, tokio::sync::mpsc::Receiver<Option<(Response, u32)>>) {
    let (sink, receiver) = channel(16);
    match node.query(query.duplicate(), vec![], false, now, sink) {
        QueryStart::Send(bytes) => (bytes, receiver),
        other => panic!("unexpected start {:?}", other),
    }
}

fn exchange(asker: &mut HomeWeb, answerer: &HomeWeb, host: &LocalHost, query: &Query) -> Vec<Response> {
    let peer = PeerAddr::V4 { address: 0xc0a8_0107, port: 5353 };
    let (bytes, mut receiver) = ask(asker, query, 0);
    let question = ChannelMessage { ip: peer, bytes };
    let replies = handle_message(answerer.responder(), host, answerer.querier().tracker(), &question, 0);
    let mut cached = Vec::new();
    for reply in replies {
        let datagram = match reply {
            Action::Send(message) => message,
            Action::Deliver(_) => panic!("a query leads to no delivery"),
        };
        if datagram.ip.family() != Family::V4 {
            continue;
        }
        let nobody = LocalHost { hostname: "node-b.local".to_string(), ipv4: vec![], ipv6: vec![] };
        for action in handle_message(asker.responder(), &nobody, asker.querier().tracker(), &datagram, 0) {
            match action {
                Action::Deliver(delivery) => {
                    delivery.sink.try_send(Some((delivery.response, delivery.ttl))).unwrap()
                }
                Action::Send(_) => panic!("a response leads to no send"),
            }
        }
    }
    while let Ok(event) = receiver.try_recv() {
        match asker.receive(query, event) {
            QueryStep::Store(response, _) => cached.push(response),
            QueryStep::Finish => panic!("no timeout was sent"),
        }
    }
    assert!(matches!(asker.receive(query, None), QueryStep::Finish));
    assert!(!asker.querier().tracker().contains(query));
    cached
}

#[test]
fn a_registered_instance_is_discovered_and_resolved() {
    let mut node_a = HomeWeb::new(true, true).unwrap();
    assert_eq!(node_a.register_device(printer()), Ok(()));
    let host_a = LocalHost::new(
        "Node A",
        &vec![Address::V4(0xc0a8_0105), Address::V6(0xfe80_0000_0000_0000_0000_0000_0000_0001)],
    );
    let mut node_b = HomeWeb::new(true, true).unwrap();

    let found = exchange(
        &mut node_b,
        &node_a,
        &host_a,
        &Query::new("_homecast._tcp.local", QueryType::PTR),
    );
    let devices = HomeWeb::get_devices(&found);
    assert!(devices.contains(&"printer._homecast._tcp.local".to_string()));

    let name = "printer._homecast._tcp.local";
    let srv_responses = exchange(&mut node_b, &node_a, &host_a, &Query::new(name, QueryType::SRV));
    let (_, host) = HomeWeb::resolve_srv(&srv_responses).unwrap();
    assert_eq!(host, "node-a.local");
    let txt_responses = exchange(&mut node_b, &node_a, &host_a, &Query::new(name, QueryType::TXT));
    let a_responses = exchange(&mut node_b, &node_a, &host_a, &Query::new(&host, QueryType::A));
    let aaaa_responses = exchange(&mut node_b, &node_a, &host_a, &Query::new(&host, QueryType::AAAA));
    let device = HomeWeb::resolve_device(
        name.to_string(),
        &srv_responses,
        &txt_responses,
        &a_responses,
        &aaaa_responses,
    )
    .unwrap();
    assert_eq!(
        device,
        Device {
            name: name.to_string(),
            port: 8080,
            host: "node-a.local".to_string(),
            addresses: vec![
                Address::V4(0xc0a8_0105),
                Address::V6(0xfe80_0000_0000_0000_0000_0000_0000_0001)
            ],
            metadata: pairs(&[("color", "black")]),
        }
    );

    assert_eq!(node_a.unregister_device(&printer()), Ok(()));
    let gone = exchange(
        &mut node_b,
        &node_a,
        &host_a,
        &Query::new("_homecast._tcp.local", QueryType::PTR),
    );
    assert!(HomeWeb::get_devices(&gone).is_empty());
}

#[test]
fn a_question_that_finds_nothing_gets_a_reply_without_records() {
    let node = HomeWeb::new(true, true).unwrap();
    let host = LocalHost { hostname: "n.local".to_string(), ipv4: vec![], ipv6: vec![] };
    let question = Message {
        response: false,
        questions: vec![Inquiry { qname: "x.local".to_string(), qtype: Some(QueryType::A), unicast_response: false }],
        answers: vec![],
        additional_records: vec![],
    };
    let datagram = ChannelMessage {
        ip: PeerAddr::V4 { address: 1, port: 1 },
        bytes: encode(&question).unwrap(),
    };
    let actions = handle_message(node.responder(), &host, node.querier().tracker(), &datagram, 0);
    assert_eq!(actions.len(), 2);
    let empty = Message { response: true, questions: vec![], answers: vec![], additional_records: vec![] };
    for action in actions {
        match action {
            Action::Send(message) => assert_eq!(Some(message.bytes), encode(&empty)),
            Action::Deliver(_) => panic!("a query leads to no delivery"),
        }
    }
}
