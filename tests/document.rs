use svd::access::Access;
use svd::bit_range::BitRange;
use svd::codegen::rust::CodeGenerator;
use svd::device::Device;
use svd::dim_element_group::DimIndexType;
use svd::element::Element;
use svd::enumerated_values::EnumeratedValueData;
use svd::errors::Error;
use svd::field::Field;
use svd::register_or_cluster::RegisterOrCluster;
use svd::types::ScaledNonNegativeInteger;

fn node(name: &str, children: Vec<Element>) -> Element {
    Element { name: name.to_string(), attributes: vec![], children, text: None }
}

fn leaf(name: &str, text: &str) -> Element {
    Element { name: name.to_string(), attributes: vec![], children: vec![], text: Some(text.to_string()) }
}

fn uart_document() -> Element {
    let field = node("field", vec![leaf("name", "DATA"), leaf("bitRange", "[7:0]")]);
    let register = node(
        "register",
        vec![
            leaf("name", "DR"),
            leaf("addressOffset", "0x00"),
            leaf("size", "8"),
            leaf("access", "read-write"),
            node("fields", vec![field]),
        ],
    );
    let peripheral = node(
        "peripheral",
        vec![leaf("name", "UART0"), leaf("baseAddress", "0x40000000"), node("registers", vec![register])],
    );
    node(
        "device",
        vec![
            leaf("name", "chip"),
            leaf("version", "1.0"),
            leaf("description", "A chip"),
            leaf("addressUnitBits", "8"),
            leaf("width", "32"),
            leaf("size", "32"),
            node("peripherals", vec![peripheral]),
        ],
    )
}

#[test]
fn device_from_document() {
    let mut d = Device::from_element(&uart_document()).unwrap();
    assert_eq!(d.name, "chip");
    assert_eq!(d.peripherals.len(), 1);
    assert_eq!(d.peripherals[0].base_address, ScaledNonNegativeInteger(0x40000000));
    d.propagate_derived_from().unwrap();
    d.propagate_register_properties();
    match &d.peripherals[0].registers.as_ref().unwrap()[0] {
        RegisterOrCluster::Register(r) => {
            assert_eq!(r.size(), 8);
            assert_eq!(r.register_properties.access, Some(Access::ReadWrite));
            assert_eq!(r.fields.as_ref().unwrap()[0].bit_range, BitRange { lsb: 0, msb: 7 });
        }
        _ => panic!("register expected"),
    }
    let mut g = CodeGenerator::new();
    g.generate_device(&d).unwrap();
    let lines = g.lines();
    assert!(lines.contains(&"            let ptr = 0x40000000 as *const u8;".to_string()));
    assert!(!lines.iter().any(|l| l.contains("pub struct DR")));
}

#[test]
fn missing_name_is_reported() {
    let d = node("device", vec![leaf("version", "1"), leaf("description", "x")]);
    match Device::from_element(&d) {
        Err(Error::MissingField(kind, field)) => {
            assert_eq!(kind, "device");
            assert_eq!(field, "name");
        }
        other => panic!("unexpected {:?}", other),
    }
}

#[test]
fn bit_range_forms() {
    let a = node("field", vec![leaf("name", "A"), leaf("bitOffset", "4"), leaf("bitWidth", "3")]);
    assert_eq!(Field::from_element(&a).unwrap().bit_range, BitRange { lsb: 4, msb: 6 });
    let b = node("field", vec![leaf("name", "B"), leaf("lsb", "1"), leaf("msb", "2")]);
    assert_eq!(Field::from_element(&b).unwrap().bit_range, BitRange { lsb: 1, msb: 2 });
    let c = node("field", vec![leaf("name", "C"), leaf("bitRange", "[15:8]")]);
    assert_eq!(Field::from_element(&c).unwrap().bit_range, BitRange { lsb: 8, msb: 15 });
    let d = node("field", vec![leaf("name", "D"), leaf("bitRange", "15:8")]);
    assert!(matches!(Field::from_element(&d), Err(Error::UnexpectedValue(_, _))));
    let f = node("field", vec![leaf("name", "F"), leaf("bitRange", "[3:5]")]);
    assert!(matches!(Field::from_element(&f), Err(Error::UnexpectedValue(_, _))));
    let g = node("field", vec![leaf("name", "G"), leaf("lsb", "5"), leaf("msb", "3")]);
    assert!(matches!(Field::from_element(&g), Err(Error::UnexpectedValue(_, _))));
    let h = node("field", vec![leaf("name", "H"), leaf("bitOffset", "2"), leaf("bitWidth", "0")]);
    assert!(matches!(Field::from_element(&h), Err(Error::UnexpectedValue(_, _))));
    let e = node("field", vec![leaf("name", "E")]);
    assert!(matches!(Field::from_element(&e), Err(Error::MissingField(_, _))));
}

#[test]
fn unknown_access_is_unexpected() {
    let f = node("field", vec![leaf("name", "F"), leaf("bitRange", "[0:0]"), leaf("access", "sometimes")]);
    assert!(matches!(Field::from_element(&f), Err(Error::UnexpectedValue(_, _))));
}

#[test]
fn enumerated_value_patterns() {
    assert_eq!(
        EnumeratedValueData::from_value_str("#1x0").unwrap(),
        EnumeratedValueData::Value { value: 4, do_not_care: 2 }
    );
    assert_eq!(
        EnumeratedValueData::from_value_str("0x10").unwrap(),
        EnumeratedValueData::Value { value: 16, do_not_care: 0 }
    );
    assert!(EnumeratedValueData::from_value_str("#1x2").is_err());
}

#[test]
fn dim_index_forms() {
    match DimIndexType::from_str("A-D").unwrap() {
        DimIndexType::CharRange { start, end } => assert_eq!((start, end), ('A', 'D')),
        _ => panic!("char range expected"),
    }
    match DimIndexType::from_str("3-6").unwrap() {
        DimIndexType::DecimalRange { start, end } => assert_eq!((start, end), (3, 6)),
        _ => panic!("decimal range expected"),
    }
    match DimIndexType::from_str("a, b_1 ,c").unwrap() {
        DimIndexType::List(v) => assert_eq!(v, vec!["a".to_string(), "b_1".to_string(), "c".to_string()]),
        _ => panic!("list expected"),
    }
    assert!(DimIndexType::from_str("a,b!").is_err());
    assert!(DimIndexType::from_str("x-y").is_err());
}

#[test]
fn cluster_entries_are_read() {
    let inner = node("register", vec![leaf("name", "R"), leaf("addressOffset", "4")]);
    let cluster = node("cluster", vec![leaf("name", "C"), leaf("addressOffset", "0x10"), inner]);
    match RegisterOrCluster::from_element(&cluster).unwrap() {
        RegisterOrCluster::Cluster(c) => {
            assert_eq!(c.name, "C");
            assert_eq!(c.address_offset, ScaledNonNegativeInteger(16));
            assert_eq!(c.registers.len(), 1);
        }
        _ => panic!("cluster expected"),
    }
    assert!(RegisterOrCluster::from_element(&leaf("other", "")).is_err());
}

#[test]
fn derived_from_attribute_is_read() {
    let mut p = node("peripheral", vec![leaf("name", "B"), leaf("baseAddress", "0x10")]);
    p.attributes.push(("derivedFrom".to_string(), "A".to_string()));
    let p = svd::peripheral::Peripheral::from_element(&p).unwrap();
    assert_eq!(p.derived_from, Some("A".to_string()));
    assert!(p.registers.is_none());
}

#[test]
fn interrupt_values_are_signed() {
    let i = node("interrupt", vec![leaf("name", "I"), leaf("value", "-3")]);
    assert_eq!(svd::interrupt::Interrupt::from_element(&i).unwrap().value, -3);
    let j = node("interrupt", vec![leaf("name", "I"), leaf("value", "-+3")]);
    assert!(svd::interrupt::Interrupt::from_element(&j).is_err());
}
