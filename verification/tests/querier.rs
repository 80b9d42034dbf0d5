use home_web::codec::{decode, encode};
use home_web::querier::{
    needs_refresh, prepare_query, record_from_response, remaining, select_due, Querier,
    QueryStart, QueryStep,
};
use home_web::record::{
    prepare_triplet_from_record, Inquiry, Message, Record, RecordData, TxtEntry,
};
use home_web::tracker::Tracker;
use home_web::types::{Query, QueryType, Response, ResponseInner};
use tokio::sync::mpsc::{channel, Sender};

const SECOND: u64 = 1_000_000_000;

fn sink() -> Sender<Option<(Response, u32)>> {
    channel(1).0
}

fn ptr_query() -> Query {
    Query::new("_homecast._tcp.local", QueryType::PTR)
}

fn ptr_response(target: &str, ends_at: u128) -> Response {
    Response { inner: ResponseInner::PTR(target.to_string()), ends_at }
}

#[test]
fn the_seconds_left_are_counted_down_to_zero() {
    assert_eq!(remaining(10 * SECOND as u128, 0), 10);
    assert_eq!(remaining(10 * SECOND as u128, 1), 9);
    assert_eq!(remaining(10 * SECOND as u128, 10 * SECOND), 0);
    assert_eq!(remaining(5, 10 * SECOND), 0);
    assert_eq!(remaining(u128::MAX, 0), u128::MAX / 1_000_000_000);
}

#[test]
fn a_record_is_due_at_or_below_the_threshold() {
    assert!(needs_refresh(85, 100, 85));
    assert!(!needs_refresh(86, 100, 85));
    assert!(needs_refresh(89, 100, 89));
    assert!(!needs_refresh(89, 100, 88));
    assert!(needs_refresh(0, 0, 85));
    assert!(!needs_refresh(1, 0, 95));
    // 85 % of 10 s is 8.5 s, which rounds to 9 s; 85 % of 7 s is 5.95 s, which rounds to 6 s.
    assert!(needs_refresh(9, 10, 85));
    assert!(!needs_refresh(10, 10, 85));
    assert!(needs_refresh(6, 7, 85));
    assert!(!needs_refresh(7, 7, 85));
    // 95 % of 120 s is 114 s.
    assert!(needs_refresh(114, 120, 95));
    assert!(!needs_refresh(115, 120, 95));
    assert!(needs_refresh(4_080_218_930, u32::MAX, 95));
    assert!(!needs_refresh(4_080_218_931, u32::MAX, 95));
}

#[test]
fn the_random_threshold_lies_between_85_and_95_hundredths() {
    for _ in 0..200 {
        assert!(Querier::should_refresh(85, 100));
        assert!(!Querier::should_refresh(96, 100));
    }
}

#[test]
fn a_record_with_89_of_100_seconds_left_is_refreshed_in_about_six_of_ten_passes() {
    let trials = 4000;
    let mut selected = 0;
    for _ in 0..trials {
        if Querier::should_refresh(89, 100) {
            selected += 1;
        }
    }
    // The threshold is one of 85..=95; seven of these eleven values are at least 89.
    let share = selected as f64 / trials as f64;
    assert!(share > 0.55 && share < 0.72, "share was {}", share);
}

fn cache_entry(name: &str, ttl: u32, ends_at: u128) -> (Query, Response, u32) {
    (Query::new(name, QueryType::PTR), ptr_response("x.local", ends_at), ttl)
}

#[test]
fn the_entries_that_are_due_are_selected_in_order() {
    let now = 100 * SECOND;
    let entries = vec![
        cache_entry("fresh.local", 100, (now + 99 * SECOND) as u128),
        cache_entry("old.local", 100, (now + 10 * SECOND) as u128),
        cache_entry("edge.local", 100, (now + 90 * SECOND) as u128),
        cache_entry("gone.local", 100, 5),
    ];
    assert_eq!(
        select_due(&entries, now, &vec![85, 85, 90, 85]),
        vec![
            Query::new("old.local", QueryType::PTR),
            Query::new("edge.local", QueryType::PTR),
            Query::new("gone.local", QueryType::PTR),
        ]
    );
    assert_eq!(
        select_due(&entries, now, &vec![95, 95, 89, 95]),
        vec![Query::new("old.local", QueryType::PTR), Query::new("gone.local", QueryType::PTR)]
    );
    assert_eq!(select_due(&vec![], now, &vec![]), vec![]);
}

#[test]
fn a_refresh_pass_takes_what_is_surely_due_and_leaves_what_is_surely_fresh() {
    let now = 100 * SECOND;
    let entries = vec![
        cache_entry("fresh.local", 100, (now + 96 * SECOND) as u128),
        cache_entry("old.local", 100, (now + 85 * SECOND) as u128),
    ];
    for _ in 0..50 {
        assert_eq!(Querier::refresh_cache(&entries, now), vec![Query::new("old.local", QueryType::PTR)]);
    }
}

#[test]
fn a_record_is_made_of_a_payload() {
    let txt = ResponseInner::TXT {
        strings: vec!["color=black".to_string(), "flag".to_string(), "x".repeat(256), "y".repeat(255)],
    };
    assert_eq!(
        record_from_response("p.local", &txt, 7),
        Record {
            name: "p.local".to_string(),
            class_in: true,
            ttl: 7,
            data: RecordData::TXT {
                entries: vec![
                    TxtEntry { key: b"color".to_vec(), value: Some(b"black".to_vec()) },
                    TxtEntry { key: b"flag".to_vec(), value: None },
                    TxtEntry { key: "y".repeat(255).into_bytes(), value: None },
                ]
            }
        }
    );
    assert_eq!(
        record_from_response("p.local", &ResponseInner::SRV { port: 9, target: "h.local".to_string() }, 1).data,
        RecordData::SRV { priority: 0, weight: 0, port: 9, target: "h.local".to_string() }
    );
}

#[test]
fn a_triplet_comes_back_from_the_record_made_of_it() {
    let payloads = vec![
        ResponseInner::PTR("printer._homecast._tcp.local".to_string()),
        ResponseInner::SRV { port: 8080, target: "node-a.local".to_string() },
        ResponseInner::A { address: 0xc0a8_0105 },
        ResponseInner::AAAA { address: 0xfe80_0000_0000_0000_0000_0000_0000_0001 },
        ResponseInner::TXT { strings: vec!["color=black".to_string(), "duplex=yes".to_string()] },
    ];
    for inner in payloads {
        let query = Query::new("printer._homecast._tcp.local", inner.qtype());
        let record = record_from_response(&query.qname, &inner, 77);
        let (q, r, ttl) = prepare_triplet_from_record(&record, 3 * SECOND).unwrap();
        assert_eq!(q, query);
        assert_eq!(r.inner, inner);
        assert_eq!(r.ends_at, 80_000_000_000);
        assert_eq!(ttl, 77);
    }
}

#[test]
fn a_txt_string_without_a_value_does_not_come_back() {
    let inner = ResponseInner::TXT { strings: vec!["flag".to_string(), "a=1".to_string(), "a=2".to_string()] };
    let record = record_from_response("p.local", &inner, 1);
    let (_, r, _) = prepare_triplet_from_record(&record, 0).unwrap();
    assert_eq!(r.inner, ResponseInner::TXT { strings: vec!["a=1".to_string()] });
}

#[test]
fn a_query_carries_the_cached_responses_as_known_answers() {
    let now = 50 * SECOND;
    let cached = vec![
        ptr_response("printer._homecast._tcp.local", (now + 30 * SECOND + 999_999_999) as u128),
        ptr_response("scanner._homecast._tcp.local", (now - 1) as u128),
    ];
    let bytes = prepare_query(&ptr_query(), &cached, now).unwrap();
    let known = |target: &str, ttl: u32| Record {
        name: "_homecast._tcp.local".to_string(),
        class_in: true,
        ttl,
        data: RecordData::PTR(target.to_string()),
    };
    assert_eq!(
        decode(&bytes).unwrap(),
        Message {
            response: false,
            questions: vec![Inquiry {
                qname: "_homecast._tcp.local".to_string(),
                qtype: Some(QueryType::PTR),
                unicast_response: false,
            }],
            answers: vec![
                known("printer._homecast._tcp.local", 30),
                known("scanner._homecast._tcp.local", 0)
            ],
            additional_records: vec![],
        }
    );
}

#[test]
fn a_query_without_cached_responses_is_the_question_alone() {
    let bytes = prepare_query(&ptr_query(), &vec![], 0).unwrap();
    let question = Message {
        response: false,
        questions: vec![Inquiry {
            qname: "_homecast._tcp.local".to_string(),
            qtype: Some(QueryType::PTR),
            unicast_response: false,
        }],
        answers: vec![],
        additional_records: vec![],
    };
    assert_eq!(Some(bytes), encode(&question));
}

#[test]
fn the_cache_answers_a_query_that_does_not_bypass_it() {
    let mut querier = Querier::new(Tracker::new());
    let cached = vec![ptr_response("printer._homecast._tcp.local", 10)];
    match querier.query(ptr_query(), cached, false, 0, sink()) {
        QueryStart::Cached(responses) => {
            assert_eq!(responses, vec![ptr_response("printer._homecast._tcp.local", 10)]);
        }
        other => panic!("unexpected start {:?}", other),
    }
    assert!(!querier.tracker().contains(&ptr_query()));
}

#[test]
fn a_query_goes_out_once_while_it_is_in_flight() {
    let mut querier = Querier::new(Tracker::new());
    let first = querier.query(ptr_query(), vec![], false, 0, sink());
    let bytes = match first {
        QueryStart::Send(bytes) => bytes,
        other => panic!("unexpected start {:?}", other),
    };
    assert_eq!(Some(bytes), prepare_query(&ptr_query(), &vec![], 0));
    assert!(querier.tracker().contains(&ptr_query()));

    assert!(matches!(querier.query(ptr_query(), vec![], false, 1, sink()), QueryStart::Busy));
    assert!(matches!(querier.query(ptr_query(), vec![], true, 2, sink()), QueryStart::Busy));
    let cached = vec![ptr_response("printer._homecast._tcp.local", 10)];
    assert!(matches!(querier.query(ptr_query(), cached, true, 3, sink()), QueryStart::Busy));

    let other = Query::new("_homecast._tcp.local", QueryType::SRV);
    assert!(matches!(querier.query(other, vec![], false, 4, sink()), QueryStart::Send(_)));
}

#[test]
fn a_bypassing_query_goes_out_although_the_cache_holds_responses() {
    let mut querier = Querier::new(Tracker::new());
    let cached = vec![ptr_response("printer._homecast._tcp.local", (40 * SECOND) as u128)];
    match querier.query(ptr_query(), cached.clone(), true, 0, sink()) {
        QueryStart::Send(bytes) => assert_eq!(Some(bytes), prepare_query(&ptr_query(), &cached, 0)),
        other => panic!("unexpected start {:?}", other),
    }
}

#[test]
fn the_end_of_the_wait_takes_the_query_out_of_the_tracker() {
    let mut querier = Querier::new(Tracker::new());
    assert!(matches!(querier.query(ptr_query(), vec![], false, 0, sink()), QueryStart::Send(_)));

    let response = ptr_response("printer._homecast._tcp.local", 99);
    match querier.receive(&ptr_query(), Some((response.clone(), 120))) {
        QueryStep::Store(stored, ttl) => {
            assert_eq!(stored.inner, response.inner);
            assert_eq!(stored.ends_at, 99);
            assert_eq!(ttl, 120);
        }
        QueryStep::Finish => panic!("a response does not end the wait"),
    }
    assert!(querier.tracker().contains(&ptr_query()));

    assert!(matches!(querier.receive(&ptr_query(), None), QueryStep::Finish));
    assert!(!querier.tracker().contains(&ptr_query()));
    assert!(matches!(querier.query(ptr_query(), vec![], false, 0, sink()), QueryStart::Send(_)));
}

#[test]
fn the_tracker_hands_out_the_sink_of_a_query() {
    let mut tracker = Tracker::new();
    let (sender, mut receiver) = channel::<Option<(Response, u32)>>(1);
    assert!(tracker.get(&ptr_query()).is_none());
    tracker.insert(ptr_query(), sender);
    assert!(tracker.contains(&ptr_query()));
    assert!(!tracker.contains(&Query::new("_homecast._tcp.local", QueryType::TXT)));
    tracker.get(&ptr_query()).unwrap().try_send(None).unwrap();
    assert_eq!(receiver.try_recv().unwrap(), None);
    tracker.remove(&ptr_query());
    assert!(!tracker.contains(&ptr_query()));
    assert!(tracker.get(&ptr_query()).is_none());
    tracker.remove(&ptr_query());
    assert!(!tracker.contains(&ptr_query()));
}
