use home_web::instance::Instance;
use home_web::record::{
    prepare_triplet_from_record, Inquiry, Message, Record, RecordData, TxtEntry,
};
use home_web::registry::Registry;
use home_web::responder::{
    is_suppressed, split_string, srv_record, txt_record, LocalHost, Responder, DEFAULT_TTL,
};
use home_web::types::{Address, Query, QueryType};

fn local() -> LocalHost {
    LocalHost {
        hostname: "node-a.local".to_string(),
        ipv4: vec![0xc0a8_0105, 0x0a00_0001],
        ipv6: vec![0xfe80_0000_0000_0000_0000_0000_0000_0001],
    }
}

fn printer() -> Instance {
    Instance::new(
        "printer._homecast._tcp.local".to_string(),
        8080,
        vec![("color".to_string(), "black".to_string())],
    )
    .unwrap()
}

fn plain() -> Instance {
    Instance::new("plain._homecast._tcp.local".to_string(), 7000, vec![]).unwrap()
}

fn responder(instances: Vec<Instance>) -> Responder {
    let mut registry = Registry::new();
    for instance in instances {
        registry.register_device(instance);
    }
    Responder::new(registry)
}

fn question(name: &str, qtype: QueryType) -> Inquiry {
    Inquiry { qname: name.to_string(), qtype: Some(qtype), unicast_response: false }
}

fn record(name: &str, data: RecordData) -> Record {
    Record { name: name.to_string(), class_in: true, ttl: DEFAULT_TTL, data }
}

fn color_entry() -> TxtEntry {
    TxtEntry { key: b"color".to_vec(), value: Some(b"black".to_vec()) }
}

fn a_records() -> Vec<Record> {
    vec![
        record("node-a.local", RecordData::A { address: 0xc0a8_0105 }),
        record("node-a.local", RecordData::A { address: 0x0a00_0001 }),
    ]
}

fn aaaa_records() -> Vec<Record> {
    vec![record("node-a.local", RecordData::AAAA { address: 0xfe80_0000_0000_0000_0000_0000_0000_0001 })]
}

fn printer_srv() -> Record {
    record(
        "printer._homecast._tcp.local",
        RecordData::SRV { priority: 0, weight: 0, port: 8080, target: "node-a.local".to_string() },
    )
}

fn printer_txt() -> Record {
    record("printer._homecast._tcp.local", RecordData::TXT { entries: vec![color_entry()] })
}

#[test]
fn the_default_lifetime_is_two_minutes() {
    assert_eq!(DEFAULT_TTL, 120);
}

#[test]
fn a_ptr_question_is_answered_with_the_instances_of_the_type() {
    let responder = responder(vec![printer()]);
    let reply =
        responder.answer_queries(vec![question("_homecast._tcp.local", QueryType::PTR)], &local());
    assert!(reply.response);
    assert!(reply.questions.is_empty());
    assert_eq!(
        reply.answers,
        vec![record(
            "_homecast._tcp.local",
            RecordData::PTR("printer._homecast._tcp.local".to_string())
        )]
    );
    assert_eq!(reply.additional_records, vec![printer_srv(), printer_txt()]);
}

#[test]
fn an_instance_without_attributes_gets_no_txt_record() {
    let responder = responder(vec![printer(), plain()]);
    let reply =
        responder.answer_queries(vec![question("_homecast._tcp.local", QueryType::PTR)], &local());
    assert_eq!(reply.answers.len(), 2);
    assert_eq!(reply.additional_records.len(), 3);
    let plain_srv = record(
        "plain._homecast._tcp.local",
        RecordData::SRV { priority: 0, weight: 0, port: 7000, target: "node-a.local".to_string() },
    );
    assert!(reply.additional_records.contains(&plain_srv));
    assert!(reply.additional_records.contains(&printer_srv()));
    assert!(reply.additional_records.contains(&printer_txt()));
    let txt = responder
        .answer_queries(vec![question("plain._homecast._tcp.local", QueryType::TXT)], &local());
    assert!(txt.answers.is_empty());
    assert!(txt.additional_records.is_empty());
}

#[test]
fn an_srv_question_is_answered_with_the_addresses_of_the_host() {
    let responder = responder(vec![printer()]);
    let reply = responder
        .answer_queries(vec![question("printer._homecast._tcp.local", QueryType::SRV)], &local());
    assert_eq!(reply.answers, vec![printer_srv()]);
    let mut expected = a_records();
    expected.extend(aaaa_records());
    assert_eq!(reply.additional_records, expected);
}

#[test]
fn txt_and_address_questions_are_answered() {
    let responder = responder(vec![printer()]);
    let reply = responder
        .answer_queries(vec![question("printer._homecast._tcp.local", QueryType::TXT)], &local());
    assert_eq!(reply.answers, vec![printer_txt()]);
    assert!(reply.additional_records.is_empty());

    let reply = responder.answer_queries(vec![question("anything.local", QueryType::A)], &local());
    assert_eq!(reply.answers, a_records());
    let reply =
        responder.answer_queries(vec![question("node-a.local", QueryType::AAAA)], &local());
    assert_eq!(reply.answers, aaaa_records());
    assert!(reply.additional_records.is_empty());
}

#[test]
fn questions_are_answered_one_after_the_other() {
    let responder = responder(vec![printer()]);
    let reply = responder.answer_queries(
        vec![
            question("printer._homecast._tcp.local", QueryType::TXT),
            question("node-a.local", QueryType::A),
            question("printer._homecast._tcp.local", QueryType::SRV),
        ],
        &local(),
    );
    let mut answers = vec![printer_txt()];
    answers.extend(a_records());
    answers.push(printer_srv());
    assert_eq!(reply.answers, answers);
    let mut additional = a_records();
    additional.extend(aaaa_records());
    assert_eq!(reply.additional_records, additional);
}

#[test]
fn what_is_not_registered_adds_nothing() {
    let responder = responder(vec![printer()]);
    let reply = responder.answer_queries(
        vec![
            question("_other._tcp.local", QueryType::PTR),
            question("scanner._homecast._tcp.local", QueryType::SRV),
            question("scanner._homecast._tcp.local", QueryType::TXT),
            question("bad name", QueryType::SRV),
            Inquiry { qname: "_homecast._tcp.local".to_string(), qtype: None, unicast_response: false },
        ],
        &local(),
    );
    assert_eq!(
        reply,
        Message { response: true, questions: vec![], answers: vec![], additional_records: vec![] }
    );
    assert_eq!(responder.answer_queries(vec![], &local()).answers, vec![]);
}

#[test]
fn the_ptr_answer_has_the_fingerprint_of_the_service_type() {
    let instance = printer();
    let responder = responder(vec![instance.duplicate()]);
    let reply = responder
        .answer_queries(vec![question(&instance.service_type(), QueryType::PTR)], &local());
    let (query, _, ttl) = prepare_triplet_from_record(&reply.answers[0], 0).unwrap();
    assert_eq!(query, Query::new(&instance.service_type(), QueryType::PTR));
    assert_eq!(ttl, 120);
}

#[test]
fn a_responder_registers_and_unregisters() {
    let mut responder = responder(vec![]);
    responder.register_device(printer());
    assert_eq!(
        responder.registry().get_instance_names("_homecast._tcp.local").unwrap(),
        vec!["printer._homecast._tcp.local"]
    );
    responder.unregister_device(&printer());
    assert!(responder.registry().get_instance_names("_homecast._tcp.local").is_err());
}

fn known(name: &str, ttl: u32, data: RecordData) -> Record {
    Record { name: name.to_string(), class_in: true, ttl, data }
}

#[test]
fn a_known_answer_with_half_the_lifetime_suppresses() {
    let ptr = RecordData::PTR("printer._homecast._tcp.local".to_string());
    let prepared = record("_homecast._tcp.local", ptr.clone());
    assert!(is_suppressed(&prepared, &vec![known("_homecast._tcp.local", 100, ptr.clone())]));
    assert!(is_suppressed(&prepared, &vec![known("_homecast._tcp.local", 60, ptr.clone())]));
    assert!(!is_suppressed(&prepared, &vec![known("_homecast._tcp.local", 59, ptr.clone())]));
    assert!(!is_suppressed(&prepared, &vec![known("_other._tcp.local", 100, ptr.clone())]));
    assert!(!is_suppressed(
        &prepared,
        &vec![known("_homecast._tcp.local", 100, RecordData::PTR("x._homecast._tcp.local".to_string()))]
    ));
    assert!(!is_suppressed(&prepared, &vec![]));
    let mut chaos = known("_homecast._tcp.local", 100, ptr.clone());
    chaos.class_in = false;
    assert!(!is_suppressed(&prepared, &vec![chaos]));
    assert!(is_suppressed(
        &prepared,
        &vec![known("x.local", 1, RecordData::Other), known("_homecast._tcp.local", 4000, ptr)]
    ));

    let odd = known("a.local", 121, RecordData::A { address: 1 });
    assert!(is_suppressed(&odd, &vec![known("a.local", 60, RecordData::A { address: 1 })]));
    assert!(!is_suppressed(&odd, &vec![known("a.local", 60, RecordData::A { address: 2 })]));
}

#[test]
fn the_priority_of_a_known_srv_record_does_not_matter() {
    let prepared = printer_srv();
    let sent = known(
        "printer._homecast._tcp.local",
        90,
        RecordData::SRV { priority: 7, weight: 9, port: 8080, target: "node-a.local".to_string() },
    );
    assert!(is_suppressed(&prepared, &vec![sent]));
}

#[test]
fn suppression_keeps_the_other_records_in_order() {
    let ptr = |target: &str| {
        record("_homecast._tcp.local", RecordData::PTR(format!("{}._homecast._tcp.local", target)))
    };
    let mut prepared =
        vec![ptr("a"), record("x.local", RecordData::Other), ptr("b"), ptr("c"), ptr("b")];
    let known_answers = vec![known(
        "_homecast._tcp.local",
        100,
        RecordData::PTR("b._homecast._tcp.local".to_string()),
    )];
    Responder::suppress_known_answers(&mut prepared, &known_answers);
    assert_eq!(prepared, vec![ptr("a"), record("x.local", RecordData::Other), ptr("c")]);

    let mut untouched = vec![ptr("a")];
    Responder::suppress_known_answers(&mut untouched, &vec![]);
    assert_eq!(untouched, vec![ptr("a")]);

    let mut other = vec![record("x.local", RecordData::Other)];
    Responder::suppress_known_answers(&mut other, &vec![known("x.local", 120, RecordData::Other)]);
    assert_eq!(other, vec![record("x.local", RecordData::Other)]);
}

#[test]
fn records_are_built_from_instances() {
    assert_eq!(srv_record("printer._homecast._tcp.local", 8080, "node-a.local"), printer_srv());
    let long = "v".repeat(300);
    let metadata = vec![
        ("color".to_string(), "black".to_string()),
        ("big".to_string(), long),
        ("a=b".to_string(), "c".to_string()),
        ("".to_string(), "".to_string()),
    ];
    assert_eq!(
        txt_record("printer._homecast._tcp.local", &metadata),
        record(
            "printer._homecast._tcp.local",
            RecordData::TXT {
                entries: vec![
                    color_entry(),
                    TxtEntry { key: b"a".to_vec(), value: Some(b"b=c".to_vec()) },
                    TxtEntry { key: vec![], value: Some(vec![]) },
                ]
            }
        )
    );
}

#[test]
fn a_string_is_split_at_its_first_equals_sign() {
    assert_eq!(split_string(&b"k=v".to_vec()), TxtEntry { key: b"k".to_vec(), value: Some(b"v".to_vec()) });
    assert_eq!(split_string(&b"k=v=w".to_vec()), TxtEntry { key: b"k".to_vec(), value: Some(b"v=w".to_vec()) });
    assert_eq!(split_string(&b"flag".to_vec()), TxtEntry { key: b"flag".to_vec(), value: None });
    assert_eq!(split_string(&b"=".to_vec()), TxtEntry { key: vec![], value: Some(vec![]) });
    assert_eq!(split_string(&vec![]), TxtEntry { key: vec![], value: None });
}

#[test]
fn the_local_host_is_made_of_what_the_machine_reports() {
    let host = LocalHost::new(
        "Node A",
        &vec![Address::V6(1), Address::V4(0xc0a8_0105), Address::V4(0x0a00_0001)],
    );
    assert_eq!(
        host,
        LocalHost { hostname: "node-a.local".to_string(), ipv4: vec![0xc0a8_0105, 0x0a00_0001], ipv6: vec![1] }
    );
}
