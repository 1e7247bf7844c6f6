use svd::access::Access;
use svd::bit_range::BitRange;
use svd::codegen::error::CodegenError;
use svd::codegen::rust::CodeGenerator;
use svd::device::Device;
use svd::dim_element_group::DimElementGroup;
use svd::errors::Error;
use svd::field::{Field, FieldsGroup};
use svd::is_similar::IsSimilarOptions;
use svd::peripheral::{Peripheral, PeripheralsGroup};
use svd::register::Register;
use svd::register_or_cluster::RegisterOrCluster;
use svd::register_properties_group::RegisterPropertiesGroup;
use svd::types::ScaledNonNegativeInteger;

fn props() -> RegisterPropertiesGroup {
    RegisterPropertiesGroup { size: None, access: None, protection: None, reset_value: None, reset_mask: None }
}

fn dim() -> DimElementGroup {
    DimElementGroup { dim: None, dim_increment: None, dim_index: None }
}

fn field(name: &str, lsb: u32, msb: u32) -> Field {
    Field {
        derived_from: None,
        name: name.to_string(),
        description: None,
        bit_range: BitRange { lsb, msb },
        access: None,
        modified_write_values: None,
        read_action: None,
        enumerated_values: vec![],
    }
}

fn register(name: &str, offset: u64, size: Option<u64>, fields: Option<Vec<Field>>) -> Register {
    let mut rp = props();
    rp.size = size.map(ScaledNonNegativeInteger);
    Register {
        derived_from: None,
        dim_element: dim(),
        name: name.to_string(),
        display_name: None,
        description: None,
        alternate_group: None,
        alternate_register: None,
        address_offset: ScaledNonNegativeInteger(offset),
        register_properties: rp,
        data_type: None,
        modified_write_values: None,
        read_action: None,
        fields,
    }
}

fn peripheral(name: &str, base: u64, registers: Option<Vec<RegisterOrCluster>>) -> Peripheral {
    Peripheral {
        derived_from: None,
        dim_element: dim(),
        name: name.to_string(),
        version: None,
        description: None,
        alternate_peripheral: None,
        group_name: None,
        prepend_to_name: None,
        append_to_name: None,
        header_struct_name: None,
        disable_condition: None,
        base_address: ScaledNonNegativeInteger(base),
        register_properties: props(),
        address_blocks: vec![],
        interrupts: vec![],
        registers,
    }
}

fn device(peripherals: Vec<Peripheral>) -> Device {
    Device {
        vendor: None,
        vendor_id: None,
        name: "chip".to_string(),
        series: None,
        version: "1.0".to_string(),
        description: "A chip".to_string(),
        license_text: None,
        header_system_filename: None,
        header_definition_prefix: None,
        address_unit_bits: ScaledNonNegativeInteger(8),
        width: ScaledNonNegativeInteger(32),
        register_properties: props(),
        peripherals,
    }
}

fn generate(d: &Device) -> Result<Vec<String>, CodegenError> {
    let mut g = CodeGenerator::new();
    g.generate_device(d)?;
    Ok(g.lines().clone())
}

#[test]
fn resolving_without_references_changes_nothing() {
    let regs = vec![RegisterOrCluster::Register(register("CR", 0, None, Some(vec![field("EN", 0, 0)])))];
    let mut d = device(vec![peripheral("A", 0x1000, Some(regs)), peripheral("B", 0x2000, None)]);
    d.peripherals[0].description = Some("first".to_string());
    d.propagate_derived_from().unwrap();
    assert_eq!(d.peripherals.len(), 2);
    assert_eq!(d.peripherals[0].name, "A");
    assert_eq!(d.peripherals[0].description, Some("first".to_string()));
    assert!(d.peripherals[1].registers.is_none());
    assert_eq!(d.peripherals[1].description, None);
}

#[test]
fn chain_of_derivations_takes_the_union() {
    let mut a = peripheral("A", 0x1000, None);
    a.derived_from = Some("B".to_string());
    a.version = Some("a".to_string());
    let mut b = peripheral("B", 0x2000, None);
    b.derived_from = Some("C".to_string());
    b.description = Some("from b".to_string());
    b.version = Some("b".to_string());
    let mut c = peripheral("C", 0x3000, Some(vec![RegisterOrCluster::Register(register("DR", 4, None, None))]));
    c.group_name = Some("from c".to_string());
    let mut d = device(vec![a, b, c]);
    d.propagate_derived_from().unwrap();
    let a = &d.peripherals[0];
    assert_eq!(a.derived_from, None);
    assert_eq!(a.version, Some("a".to_string()));
    assert_eq!(a.description, Some("from b".to_string()));
    assert_eq!(a.group_name, Some("from c".to_string()));
    assert_eq!(a.registers.as_ref().unwrap().len(), 1);
    assert_eq!(a.base_address, ScaledNonNegativeInteger(0x1000));
}

#[test]
fn unresolved_reference_is_an_error() {
    let mut a = peripheral("A", 0, None);
    a.derived_from = Some("MISSING".to_string());
    let mut d = device(vec![a]);
    match d.propagate_derived_from() {
        Err(Error::UnresolvedReference(n)) => assert_eq!(n, "MISSING"),
        other => panic!("unexpected {:?}", other),
    }
    assert_eq!(d.peripherals[0].derived_from, Some("MISSING".to_string()));
}

#[test]
fn derivation_cycle_is_an_error() {
    let mut a = peripheral("A", 0, None);
    a.derived_from = Some("B".to_string());
    let mut b = peripheral("B", 0, None);
    b.derived_from = Some("A".to_string());
    let mut d = device(vec![a, b]);
    match d.propagate_derived_from() {
        Err(Error::DerivationCycle(n)) => assert_eq!(n, "A"),
        other => panic!("unexpected {:?}", other),
    }
}

#[test]
fn field_derivation_inside_register() {
    let mut f1 = field("F1", 0, 3);
    f1.derived_from = Some("F0".to_string());
    let mut f0 = field("F0", 4, 7);
    f0.access = Some(Access::ReadOnly);
    f0.description = Some("zero".to_string());
    let mut r = register("R", 0, None, Some(vec![f1, f0]));
    r.propagate_derived_from().unwrap();
    let fs = r.fields.unwrap();
    assert_eq!(fs[0].access, Some(Access::ReadOnly));
    assert_eq!(fs[0].description, Some("zero".to_string()));
    assert_eq!(fs[0].bit_range, BitRange { lsb: 0, msb: 3 });
    assert_eq!(fs[0].derived_from, None);
}

#[test]
fn cascade_takes_the_most_specific_size() {
    let regs = vec![
        RegisterOrCluster::Register(register("R32", 0, None, None)),
        RegisterOrCluster::Register(register("R16", 4, Some(16), None)),
    ];
    let mut d = device(vec![peripheral("P", 0, Some(regs))]);
    d.register_properties.size = Some(ScaledNonNegativeInteger(32));
    d.register_properties.access = Some(Access::ReadWrite);
    d.propagate_register_properties();
    let rs = d.peripherals[0].registers.as_ref().unwrap();
    match (&rs[0], &rs[1]) {
        (RegisterOrCluster::Register(a), RegisterOrCluster::Register(b)) => {
            assert_eq!(a.size(), 32);
            assert_eq!(b.size(), 16);
            assert_eq!(a.register_properties.access, Some(Access::ReadWrite));
        }
        _ => panic!("registers expected"),
    }
    assert_eq!(d.peripherals[0].register_properties.size, Some(ScaledNonNegativeInteger(32)));
}

#[test]
fn register_without_size_defaults_to_32() {
    assert_eq!(register("R", 0, None, None).size(), 32);
}

#[test]
fn contiguous_fields_form_a_group() {
    let fields = vec![field("CH0", 0, 3), field("CH1", 4, 7), field("CH2", 8, 11)];
    let (groups, individuals) = FieldsGroup::from_fields(&fields);
    assert_eq!(groups.len(), 1);
    assert!(individuals.is_empty());
    let g = &groups[0];
    assert_eq!(g.prefix(), "CH");
    assert_eq!(g.count(), 3);
    assert_eq!(g.lsb_increment(), 4);
    assert_eq!(g.lsb(), 0);
    assert_eq!(g.width(), 4);
}

#[test]
fn fields_with_a_gap_in_their_indices_are_not_grouped() {
    let fields = vec![field("CH0", 0, 3), field("CH2", 8, 11)];
    let (groups, individuals) = FieldsGroup::from_fields(&fields);
    assert!(groups.is_empty());
    assert_eq!(individuals.len(), 2);
    assert_eq!(individuals[0].name, "CH0");
    assert_eq!(individuals[1].name, "CH2");
}

#[test]
fn fields_of_different_widths_are_not_grouped() {
    let fields = vec![field("CH0", 0, 3), field("CH1", 4, 8), field("EN", 12, 12)];
    let (groups, individuals) = FieldsGroup::from_fields(&fields);
    assert!(groups.is_empty());
    assert_eq!(individuals.len(), 3);
}

#[test]
fn two_unrelated_timers_get_distinct_names() {
    let a = peripheral("TIMER", 0x1000, Some(vec![RegisterOrCluster::Register(register("A", 0, None, None))]));
    let b = peripheral("TIMER", 0x2000, Some(vec![RegisterOrCluster::Register(register("B", 0, None, None))]));
    let (groups, individuals) = PeripheralsGroup::from_peripherals(&vec![a, b], &IsSimilarOptions::new());
    assert!(groups.is_empty());
    assert_eq!(individuals[0].name, "TIMER");
    assert_eq!(individuals[1].name, "TIMER_0");
}

#[test]
fn similar_peripherals_share_a_type() {
    let regs = || Some(vec![RegisterOrCluster::Register(register("DR", 0, Some(8), None))]);
    let ps = vec![peripheral("UART0", 0x100, regs()), peripheral("UART1", 0x200, regs()), peripheral("SPI", 0x300, None)];
    let (groups, individuals) = PeripheralsGroup::from_peripherals(&ps, &IsSimilarOptions::new());
    assert_eq!(groups.len(), 1);
    assert_eq!(groups[0].struct_name(), "UART");
    assert_eq!(groups[0].module_name(), "UART");
    assert_eq!(groups[0].peripherals().len(), 2);
    assert_eq!(individuals.len(), 1);
    assert_eq!(individuals[0].name, "SPI");
}

#[test]
fn common_prefix_names_a_group() {
    let regs = || Some(vec![RegisterOrCluster::Register(register("DR", 0, Some(8), None))]);
    let ps = vec![peripheral("GPIOA", 0x100, regs()), peripheral("GPIOB", 0x200, regs())];
    let (groups, _) = PeripheralsGroup::from_peripherals(&ps, &IsSimilarOptions::new());
    assert_eq!(groups[0].struct_name(), "GPIO");
}

#[test]
fn unsupported_size_fails_the_device() {
    let regs = vec![RegisterOrCluster::Register(register("ODD", 0, Some(24), None))];
    let d = device(vec![peripheral("P", 0x1000, Some(regs))]);
    assert_eq!(generate(&d), Err(CodegenError::UnsupportedFeature));
}

#[test]
fn registers_inside_clusters_are_emitted_at_the_cluster_offset() {
    let inner = svd::cluster::Cluster {
        derived_from: None,
        dim_element: dim(),
        name: "IN".to_string(),
        alternate_cluster: None,
        header_struct_name: None,
        address_offset: ScaledNonNegativeInteger(0x20),
        register_properties: props(),
        registers: vec![RegisterOrCluster::Register(register("DEEP", 4, Some(32), None))],
    };
    let c = svd::cluster::Cluster {
        derived_from: None,
        dim_element: dim(),
        name: "C".to_string(),
        alternate_cluster: None,
        header_struct_name: None,
        address_offset: ScaledNonNegativeInteger(0x100),
        register_properties: props(),
        registers: vec![
            RegisterOrCluster::Register(register("CR", 8, Some(16), None)),
            RegisterOrCluster::Cluster(inner),
        ],
    };
    let d = device(vec![peripheral("P", 0x4000_0000, Some(vec![RegisterOrCluster::Cluster(c)]))]);
    let lines = generate(&d).unwrap();
    assert!(lines.contains(&"            let ptr = 0x40000108 as *const u16;".to_string()));
    assert!(lines.contains(&"            let ptr = 0x40000124 as *const u32;".to_string()));
}

#[test]
fn failed_generation_writes_nothing() {
    let regs = vec![
        RegisterOrCluster::Register(register("OK", 0, Some(32), None)),
        RegisterOrCluster::Register(register("ODD", 4, Some(24), None)),
    ];
    let d = device(vec![peripheral("P", 0x1000, Some(regs))]);
    let mut g = CodeGenerator::new();
    assert_eq!(g.generate_device(&d), Err(CodegenError::UnsupportedFeature));
    assert!(g.lines().is_empty());
}

#[test]
fn descending_fields_form_a_group() {
    let fields = vec![field("CH0", 8, 11), field("CH1", 4, 7), field("CH2", 0, 3)];
    let (groups, individuals) = FieldsGroup::from_fields(&fields);
    assert_eq!(groups.len(), 1);
    assert!(individuals.is_empty());
    assert_eq!(groups[0].lsb(), 8);
    assert_eq!(groups[0].lsb_increment(), -4);
    let r = register("CFG", 0, Some(16), Some(fields));
    let mut g = CodeGenerator::new().with_doc(false);
    g.generate_fields(&r).unwrap();
    assert!(g.lines().contains(&"        let lsb = 8 - index * 4;".to_string()));
}

#[test]
fn peripherals_by_name() {
    let d = device(vec![peripheral("A", 0x10, None), peripheral("B", 0x20, None)]);
    let map = d.peripherals_map();
    assert_eq!(map.len(), 2);
    assert_eq!(map[1].0, "B");
    assert_eq!(map[1].1.base_address, ScaledNonNegativeInteger(0x20));
}

#[test]
fn uart_end_to_end() {
    let mut dr = register("DR", 0, Some(8), Some(vec![field("DATA", 0, 7)]));
    dr.register_properties.access = Some(Access::ReadWrite);
    let d = device(vec![peripheral("UART0", 0x40000000, Some(vec![RegisterOrCluster::Register(dr)]))]);
    let lines = generate(&d).unwrap();
    assert!(lines.contains(&"        pub unsafe fn read_DR() -> u8 {".to_string()));
    assert!(lines.contains(&"            let ptr = 0x40000000 as *const u8;".to_string()));
    assert!(lines.contains(&"        pub unsafe fn write_DR<T: Into<u8>>(value: T) {".to_string()));
    assert!(lines.contains(&"            let ptr = 0x40000000 as *mut u8;".to_string()));
    assert!(!lines.iter().any(|l| l.contains("pub struct DR")));
    assert_eq!(lines[3], "#[doc = \"A chip\"]");
    assert_eq!(lines[4], "pub mod chip {");
    assert_eq!(lines[5], "    pub mod UART0 {");
    assert_eq!(lines.last().unwrap(), "}");
}

#[test]
fn read_only_register_has_no_writer() {
    let mut sr = register("SR", 4, Some(32), None);
    sr.register_properties.access = Some(Access::ReadOnly);
    let d = device(vec![peripheral("P", 0x100, Some(vec![RegisterOrCluster::Register(sr)]))]);
    let lines = generate(&d).unwrap();
    assert!(lines.iter().any(|l| l.contains("pub unsafe fn read_SR() -> u32 {")));
    assert!(!lines.iter().any(|l| l.contains("write_SR")));
    assert!(lines.contains(&"        pub fn SR_ptr() -> *const u32 {".to_string()));
    assert!(lines.contains(&"            0x104 as *const u32".to_string()));
}

#[test]
fn field_wrapper_masks_and_shifts() {
    let fields = vec![field("MODE", 4, 7), field("EN", 0, 0)];
    let r = register("CR", 0, Some(32), Some(fields));
    let mut g = CodeGenerator::new().with_doc(false);
    let ty = g.generate_fields(&r).unwrap();
    assert_eq!(ty, "CR");
    let lines = g.lines();
    assert_eq!(lines[0], "pub struct CR(pub u32);");
    assert!(lines.contains(&"    pub fn MODE(&self) -> u32 {".to_string()));
    assert!(lines.contains(&"        let lsb = 4;".to_string()));
    assert!(lines.contains(&"        let mask = 15 << lsb;".to_string()));
    assert!(lines.contains(&"        (self.0 & mask) >> lsb".to_string()));
    assert!(lines.contains(&"        self.0 = (self.0 & !mask) | ((value << lsb) & mask)".to_string()));
    assert!(lines.contains(&"    pub fn EN(&self) -> bool {".to_string()));
    assert!(lines.contains(&"        (self.0 & (1 << lsb)) != 0".to_string()));
}

#[test]
fn field_group_accessor_checks_its_index() {
    let fields = vec![field("CH0", 0, 3), field("CH1", 4, 7), field("CH2", 8, 11)];
    let r = register("CFG", 0, Some(16), Some(fields));
    let mut g = CodeGenerator::new().with_doc(false);
    g.generate_fields(&r).unwrap();
    let lines = g.lines();
    assert!(lines.contains(&"    pub fn CH(&self, index: usize) -> u16 {".to_string()));
    assert!(lines.contains(&"        assert!(index < 3);".to_string()));
    assert!(lines.contains(&"        let lsb = 0 + index * 4;".to_string()));
    assert!(lines.contains(&"    pub fn set_CH(&mut self, index: usize, value: u16) {".to_string()));
}

#[test]
fn mask_and_shift_round_trip() {
    let mut g = CodeGenerator::new();
    g.generate_bits_set("lsb", 12).unwrap();
    assert_eq!(g.lines()[0], "let mask = 4095 << lsb;");
    for &(w, l) in &[(1u32, 0u32), (4, 4), (12, 20), (64, 0), (63, 1)] {
        let mask: u64 = if w == 64 { u64::MAX } else { (1u64 << w) - 1 };
        let storage: u64 = 0xA5A5_5A5A_F0F0_0F0F;
        let v: u64 = 0x1234_5678_9ABC_DEF1 & mask;
        let m = mask << l;
        let written = (storage & !m) | ((v << l) & m);
        assert_eq!((written & m) >> l, v);
        assert_eq!((written ^ storage) & !m, 0);
    }
}

#[test]
fn width_out_of_range_is_unsupported() {
    let mut g = CodeGenerator::new();
    assert_eq!(g.generate_bits_get("lsb", 0), Err(CodegenError::UnsupportedFeature));
    assert_eq!(g.generate_bits_get("lsb", 65), Err(CodegenError::UnsupportedFeature));
}

#[test]
fn peripheral_group_uses_a_handle() {
    let regs = || Some(vec![RegisterOrCluster::Register(register("DR", 0x10, Some(8), None))]);
    let d = device(vec![peripheral("UART0", 0x100, regs()), peripheral("UART1", 0x200, regs())]);
    let lines = generate(&d).unwrap();
    assert!(lines.contains(&"    pub mod UART {".to_string()));
    assert!(lines.contains(&"        pub struct UART { pub base_address: usize }".to_string()));
    assert!(lines.contains(&"        pub const UART0: UART = UART {base_address: 256};".to_string()));
    assert!(lines.contains(&"            pub unsafe fn read_DR(&self) -> u8 {".to_string()));
    assert!(lines.contains(&"                let ptr = (self.base_address + 16) as * const u8;".to_string()));
    assert!(lines.contains(&"                (self.base_address + 0x10) as *mut u8".to_string()));
}

#[test]
fn interrupts_of_all_peripherals() {
    let mut a = peripheral("A", 0, None);
    a.interrupts.push(svd::interrupt::Interrupt { name: "I1".to_string(), description: None, value: 1 });
    let mut b = peripheral("B", 0, None);
    b.interrupts.push(svd::interrupt::Interrupt { name: "I2".to_string(), description: None, value: 2 });
    let d = device(vec![a, b]);
    let all = d.interrupts();
    assert_eq!(all.len(), 2);
    assert_eq!(all[1].name, "I2");
}

#[test]
fn chain_resolves_in_any_order() {
    let mut c = peripheral("C", 0x3000, None);
    c.group_name = Some("from c".to_string());
    let mut b = peripheral("B", 0x2000, None);
    b.derived_from = Some("C".to_string());
    b.description = Some("from b".to_string());
    let mut a = peripheral("A", 0x1000, None);
    a.derived_from = Some("B".to_string());
    a.version = Some("a".to_string());
    let mut d = device(vec![b, c, a]);
    d.propagate_derived_from().unwrap();
    let a = &d.peripherals[2];
    assert_eq!(a.derived_from, None);
    assert_eq!(a.version, Some("a".to_string()));
    assert_eq!(a.description, Some("from b".to_string()));
    assert_eq!(a.group_name, Some("from c".to_string()));
}
