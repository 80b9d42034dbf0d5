use home_web::instance::{is_valid_name, validate, Instance, InstanceError};

fn pairs(items: &[(&str, &str)]) -> Vec<(String, String)> {
    items.iter().map(|(k, v)| (k.to_string(), v.to_string())).collect()
}

#[test]
fn valid_names_are_accepted() {
    assert_eq!(is_valid_name("printer._homecast._tcp.local"), Ok(()));
    assert_eq!(is_valid_name("my-printer-2._ipp-tls._udp.local"), Ok(()));
    assert_eq!(is_valid_name("._x._tcp.local"), Ok(()));
    assert_eq!(validate("printer._homecast._tcp.local", 1), Ok(()));
    assert_eq!(validate("printer._homecast._tcp.local", 65535), Ok(()));
}

#[test]
fn each_defect_gives_its_error() {
    assert_eq!(is_valid_name("my printer._homecast._tcp.local"), Err(InstanceError::Spaces));
    assert_eq!(is_valid_name(""), Err(InstanceError::Format));
    assert_eq!(is_valid_name("printer"), Err(InstanceError::Format));
    assert_eq!(is_valid_name("printer._homecast._tcp"), Err(InstanceError::Format));
    assert_eq!(is_valid_name("a.printer._homecast._tcp.local"), Err(InstanceError::Format));
    assert_eq!(is_valid_name("printer._homecast._tcp.local."), Err(InstanceError::Format));
    assert_eq!(is_valid_name("Printer._homecast._tcp.local"), Err(InstanceError::Label));
    assert_eq!(is_valid_name("prin_ter._homecast._tcp.local"), Err(InstanceError::Label));
    assert_eq!(is_valid_name("printer.homecast._tcp.local"), Err(InstanceError::ServiceUnderscore));
    assert_eq!(is_valid_name("printer.._tcp.local"), Err(InstanceError::ServiceUnderscore));
    assert_eq!(is_valid_name("printer._._tcp.local"), Err(InstanceError::ServiceEmpty));
    assert_eq!(is_valid_name("printer._Home._tcp.local"), Err(InstanceError::ServiceChars));
    assert_eq!(is_valid_name("printer._home_cast._tcp.local"), Err(InstanceError::ServiceChars));
    assert_eq!(is_valid_name("printer._homecast._sctp.local"), Err(InstanceError::Protocol));
    assert_eq!(is_valid_name("printer._homecast.tcp.local"), Err(InstanceError::Protocol));
    assert_eq!(is_valid_name("printer._homecast._tcp.lan"), Err(InstanceError::Domain));
    assert_eq!(is_valid_name("printer._homecast._tcp.Local"), Err(InstanceError::Domain));
    assert_eq!(validate("printer._homecast._tcp.local", 0), Err(InstanceError::Port));
    assert_eq!(validate("printer", 0), Err(InstanceError::Format));
}

#[test]
fn a_refused_instance_gives_the_words_of_its_defect() {
    let refused = |name: &str, port: u16| Instance::new(name.to_string(), port, vec![]).unwrap_err();
    assert_eq!(refused("a b._x._tcp.local", 1), "Instance name should not contain spaces");
    assert_eq!(
        refused("", 1),
        "Instance name should be of format 'name._service-type._protocol._domain'"
    );
    assert_eq!(
        refused("A._x._tcp.local", 1),
        "Instance name should be a lowercase alphanumeric string with hyphens"
    );
    assert_eq!(refused("a.x._tcp.local", 1), "Service type should start with an underscore");
    assert_eq!(refused("a._._tcp.local", 1), "Service type should not be empty after the underscore");
    assert_eq!(
        refused("a._X._tcp.local", 1),
        "Service type should be a lowercase alphanumeric string with hyphens"
    );
    assert_eq!(refused("a._x._foo.local", 1), "Protocol should be either '_tcp' or '_udp'");
    assert_eq!(refused("a._x._tcp.example", 1), "Domain should be 'local'");
    assert_eq!(refused("a._x._tcp.local", 0), "Invalid port number");
    assert_eq!(InstanceError::Port.message(), "Invalid port number");
}

#[test]
fn an_instance_keeps_what_it_was_made_of() {
    let instance = Instance::new(
        "printer._homecast._tcp.local".to_string(),
        8080,
        pairs(&[("color", "black"), ("duplex", "yes")]),
    )
    .unwrap();
    assert_eq!(instance.name(), "printer._homecast._tcp.local");
    assert_eq!(instance.port(), 8080);
    assert_eq!(instance.metadata(), &pairs(&[("color", "black"), ("duplex", "yes")]));
    assert_eq!(instance.service_type(), "_homecast._tcp.local");
    let copy = instance.duplicate();
    assert_eq!(copy.name(), instance.name());
    assert_eq!(copy.port(), 8080);
    assert_eq!(copy.metadata(), instance.metadata());
}

#[test]
fn of_two_values_for_one_key_the_later_stays() {
    let instance = Instance::new(
        "printer._homecast._tcp.local".to_string(),
        1,
        pairs(&[("a", "1"), ("b", "2"), ("a", "3"), ("c", "4"), ("b", "5")]),
    )
    .unwrap();
    assert_eq!(instance.metadata(), &pairs(&[("a", "3"), ("b", "5"), ("c", "4")]));
}

#[test]
fn instances_are_equal_by_name() {
    let a = Instance::new("p._x._tcp.local".to_string(), 1, vec![]).unwrap();
    let b = Instance::new("p._x._tcp.local".to_string(), 2, pairs(&[("k", "v")])).unwrap();
    let c = Instance::new("q._x._tcp.local".to_string(), 1, vec![]).unwrap();
    assert!(a == b);
    assert!(a != c);
}

#[test]
fn the_service_type_is_read_from_an_instance_name() {
    assert_eq!(
        Instance::break_instance_str("printer._homecast._tcp.local"),
        Ok("_homecast._tcp.local".to_string())
    );
    assert_eq!(Instance::break_instance_str("a.b.c.d.e"), Ok("b.c.d".to_string()));
    assert_eq!(Instance::break_instance_str("...."), Ok("..".to_string()));
    assert_eq!(
        Instance::break_instance_str("printer._homecast._tcp"),
        Err("Instance name must be in the format `name.service_type.protocol.local`.".to_string())
    );
    assert_eq!(
        Instance::break_instance_str(""),
        Err("Instance name must be in the format `name.service_type.protocol.local`.".to_string())
    );
}
