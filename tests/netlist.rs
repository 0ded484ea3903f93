use schematic_netlist::geometry::{Mirror, Placement, Point, Rotation};
use schematic_netlist::library::{PinDef, Property, SymbolDef, SymbolInstance, UnitDef};
use schematic_netlist::netlist::{Element, Netlist, NetlistError};

fn prop(key: &str, value: &str) -> Property {
    Property { key: key.to_string(), value: value.to_string() }
}

fn pin(number: usize, x: i64, y: i64) -> PinDef {
    PinDef { number, electrical: "passive".to_string(), at: Point::new(x, y) }
}

/// A two-pin resistor: pin 1 above, pin 2 below the origin.
fn resistor_def() -> SymbolDef {
    SymbolDef {
        name: "Device:R".to_string(),
        power: false,
        units: vec![UnitDef { unit: 1, pins: vec![pin(1, 0, 381), pin(2, 0, -381)], graphics: vec![] }],
    }
}

fn resistor(reference: &str, x: i64, y: i64, extra: Vec<Property>) -> SymbolInstance {
    let mut properties = vec![prop("Reference", reference), prop("Value", "10k")];
    properties.extend(extra);
    SymbolInstance {
        lib_id: "Device:R".to_string(),
        unit: 1,
        placement: Placement { at: Point::new(x, y), rotation: Rotation::R0, mirror: Mirror::X },
        properties,
    }
}

fn with_library(defs: Vec<SymbolDef>) -> Netlist {
    let mut n = Netlist::new();
    n.start_library_symbols().unwrap();
    for d in defs {
        n.visit(Element::Definition(d)).unwrap();
    }
    n.end_library_symbols().unwrap();
    n
}

fn ident(n: &Netlist, i: usize) -> String {
    n.net(i).identifier.clone().unwrap()
}

#[test]
fn scenario_label_names_wire_net() {
    let mut n = Netlist::new();
    n.visit(Element::Wire(Point::new(0, 0), Point::new(1000, 0))).unwrap();
    n.visit(Element::Label(Point::new(0, 0), "VCC".to_string())).unwrap();
    assert_eq!(n.net_count(), 1);
    assert_eq!(ident(&n, 0), "VCC");
    assert_eq!(n.net_at(&Point::new(1000, 0)), Some(0));
}

#[test]
fn scenario_unlabeled_wires_numbered() {
    let mut n = Netlist::new();
    n.visit(Element::Wire(Point::new(0, 0), Point::new(100, 0))).unwrap();
    n.visit(Element::Wire(Point::new(0, 500), Point::new(100, 500))).unwrap();
    let lines = n.dump().unwrap();
    assert!(lines.is_empty());
    assert_eq!(n.net_count(), 2);
    assert_eq!(ident(&n, 0), "1");
    assert_eq!(ident(&n, 1), "2");
}

#[test]
fn scenario_resistor_line() {
    let mut n = with_library(vec![resistor_def()]);
    n.visit(Element::Instance(resistor("R1", 1000, 1000, vec![]))).unwrap();
    let lines = n.dump().unwrap();
    assert_eq!(lines, vec!["R1 1 2 10k".to_string()]);
}

#[test]
fn scenario_no_connect_new_net() {
    let mut n = Netlist::new();
    n.visit(Element::NoConnect(Point::new(250, 250))).unwrap();
    assert_eq!(n.net_count(), 1);
    assert_eq!(ident(&n, 0), "NC");
    assert_eq!(n.net(0).kind, "no_connect");
}

#[test]
fn no_connect_overrides_existing_net() {
    let mut n = Netlist::new();
    n.visit(Element::Label(Point::new(5, 5), "A".to_string())).unwrap();
    n.visit(Element::NoConnect(Point::new(5, 5))).unwrap();
    assert_eq!(n.net_count(), 1);
    assert_eq!(ident(&n, 0), "NC");
    assert_eq!(n.net(0).kind, "no_connect");
}

#[test]
fn node_sequence_reverses_pins() {
    let mut n = with_library(vec![resistor_def()]);
    n.visit(Element::Instance(resistor("R1", 1000, 1000, vec![prop("Spice_Node_Sequence", "1 0")]))).unwrap();
    let lines = n.dump().unwrap();
    assert_eq!(lines, vec!["R1 2 1 10k".to_string()]);
}

#[test]
fn wire_joins_new_endpoint_to_known_net() {
    let mut n = Netlist::new();
    n.visit(Element::Label(Point::new(0, 0), "IN".to_string())).unwrap();
    n.visit(Element::Wire(Point::new(0, 0), Point::new(0, 700))).unwrap();
    assert_eq!(n.net_at(&Point::new(0, 0)), Some(0));
    assert_eq!(n.net_at(&Point::new(0, 700)), Some(0));
    n.visit(Element::Wire(Point::new(300, 300), Point::new(0, 700))).unwrap();
    assert_eq!(n.net_at(&Point::new(300, 300)), Some(0));
    assert_eq!(n.net_count(), 1);
}

#[test]
fn wire_between_known_nets_keeps_them_apart() {
    let mut n = Netlist::new();
    n.visit(Element::Label(Point::new(0, 0), "A".to_string())).unwrap();
    n.visit(Element::Label(Point::new(100, 0), "B".to_string())).unwrap();
    n.visit(Element::Wire(Point::new(0, 0), Point::new(100, 0))).unwrap();
    assert_eq!(n.net_at(&Point::new(0, 0)), Some(0));
    assert_eq!(n.net_at(&Point::new(100, 0)), Some(1));
}

#[test]
fn label_replaces_identifier_not_kind() {
    let mut n = with_library(vec![resistor_def()]);
    n.visit(Element::Instance(resistor("R1", 0, 0, vec![]))).unwrap();
    let at = Point::new(0, 381);
    let i = n.net_at(&at).unwrap();
    assert_eq!(n.net(i).kind, "passive");
    n.visit(Element::Label(at, "OUT".to_string())).unwrap();
    n.visit(Element::GlobalLabel(at, "OUT2".to_string())).unwrap();
    assert_eq!(ident(&n, i), "OUT2");
    assert_eq!(n.net(i).kind, "passive");
}

#[test]
fn finalize_numbers_only_unnamed_nets() {
    let mut n = Netlist::new();
    n.visit(Element::Wire(Point::new(0, 0), Point::new(1, 0))).unwrap();
    n.visit(Element::Label(Point::new(0, 9), "GND".to_string())).unwrap();
    n.visit(Element::Wire(Point::new(0, 5), Point::new(1, 5))).unwrap();
    n.dump().unwrap();
    assert_eq!(ident(&n, 0), "1");
    assert_eq!(ident(&n, 1), "GND");
    assert_eq!(ident(&n, 2), "2");
}

#[test]
fn finalize_counts_past_nine() {
    let mut n = Netlist::new();
    for k in 0..12 {
        n.visit(Element::Wire(Point::new(k, 0), Point::new(k, 1))).unwrap();
    }
    n.dump().unwrap();
    assert_eq!(ident(&n, 9), "10");
    assert_eq!(ident(&n, 11), "12");
}

#[test]
fn power_symbol_names_net_and_is_skipped() {
    let gnd = SymbolDef {
        name: "power:GND".to_string(),
        power: true,
        units: vec![UnitDef { unit: 0, pins: vec![pin(1, 0, 0)], graphics: vec![] }],
    };
    let mut n = with_library(vec![resistor_def(), gnd]);
    n.visit(Element::Instance(resistor("R1", 0, 0, vec![]))).unwrap();
    let pwr = SymbolInstance {
        lib_id: "power:GND".to_string(),
        unit: 1,
        placement: Placement { at: Point::new(0, -381), rotation: Rotation::R0, mirror: Mirror::X },
        properties: vec![prop("Reference", "#PWR01"), prop("Value", "GND")],
    };
    n.visit(Element::Instance(pwr)).unwrap();
    let lines = n.dump().unwrap();
    assert_eq!(lines, vec!["R1 1 GND 10k".to_string()]);
}

#[test]
fn disabled_symbol_is_skipped() {
    let mut n = with_library(vec![resistor_def()]);
    n.visit(Element::Instance(resistor("R1", 0, 0, vec![prop("Spice_Netlist_Enabled", "N")]))).unwrap();
    n.visit(Element::Instance(resistor("R2", 5000, 0, vec![prop("Spice_Netlist_Enabled", "Y")]))).unwrap();
    let lines = n.dump().unwrap();
    assert_eq!(lines, vec!["R2 3 4 10k".to_string()]);
}

#[test]
fn subcircuit_and_primitive_formats() {
    let mut n = with_library(vec![resistor_def()]);
    n.visit(Element::Instance(resistor("U1", 0, 0, vec![prop("Spice_Primitive", "X"), prop("Spice_Model", "amp")]))).unwrap();
    n.visit(Element::Instance(resistor("1", 5000, 0, vec![prop("Spice_Primitive", "V")]))).unwrap();
    let lines = n.dump().unwrap();
    assert_eq!(lines, vec!["XU1 - 1 2 - amp".to_string(), "V1 - - 10k".to_string()]);
}

#[test]
fn missing_library_is_an_error() {
    let mut n = Netlist::new();
    let r = n.visit(Element::Instance(resistor("R1", 0, 0, vec![])));
    assert_eq!(r, Err(NetlistError::MissingLibrary));
    assert_eq!(n.net_count(), 0);
    assert_eq!(n.pins("Device:R").err(), Some(NetlistError::MissingLibrary));
}

#[test]
fn unknown_pin_in_sequence_is_an_error() {
    let mut n = with_library(vec![resistor_def()]);
    n.visit(Element::Instance(resistor("R1", 0, 0, vec![prop("Spice_Node_Sequence", "0 5")]))).unwrap();
    assert_eq!(n.dump(), Err(NetlistError::MissingPin));
}

#[test]
fn malformed_sequence_is_an_error() {
    let mut n = with_library(vec![resistor_def()]);
    n.visit(Element::Instance(resistor("R1", 0, 0, vec![prop("Spice_Node_Sequence", "1 x")]))).unwrap();
    assert_eq!(n.dump(), Err(NetlistError::InvalidNodeSequence));
}

#[test]
fn missing_value_is_an_error() {
    let mut n = with_library(vec![resistor_def()]);
    let mut inst = resistor("R1", 0, 0, vec![]);
    inst.properties.retain(|p| p.key != "Value");
    n.visit(Element::Instance(inst)).unwrap();
    assert_eq!(n.dump(), Err(NetlistError::MissingProperty));
}

#[test]
fn unregistered_pin_point_emits_nan() {
    let mut n = with_library(vec![resistor_def()]);
    n.visit(Element::Instance(resistor("R1", 0, 0, vec![]))).unwrap();
    let moved = SymbolDef {
        name: "Device:R".to_string(),
        power: false,
        units: vec![UnitDef { unit: 1, pins: vec![pin(1, 0, 381), pin(2, 0, -999)], graphics: vec![] }],
    };
    n.start_library_symbols().unwrap();
    n.visit(Element::Definition(moved)).unwrap();
    n.end_library_symbols().unwrap();
    assert_eq!(n.dump().unwrap(), vec!["R1 1 NaN 10k".to_string()]);
}

#[test]
fn elements_outside_their_section_are_ignored() {
    let mut n = Netlist::new();
    n.visit(Element::Definition(resistor_def())).unwrap();
    assert_eq!(n.pins("Device:R").err(), Some(NetlistError::MissingLibrary));
    n.start_library_symbols().unwrap();
    n.visit(Element::Wire(Point::new(0, 0), Point::new(1, 1))).unwrap();
    n.end_library_symbols().unwrap();
    assert_eq!(n.net_count(), 0);
    assert_eq!(n.end_library_symbols(), Err(NetlistError::Nesting));
}

#[test]
fn pin_table_of_library() {
    let n = with_library(vec![resistor_def()]);
    let pins = n.pins("Device:R").unwrap();
    assert_eq!(pins.len(), 2);
    assert_eq!(pins[0].number, 1);
    assert_eq!(pins[0].at, Point::new(0, 381));
    assert_eq!(pins[1].unit, 1);
}

#[test]
fn multi_unit_group_uses_each_units_placement() {
    let dual = SymbolDef {
        name: "Amp:Dual".to_string(),
        power: false,
        units: vec![
            UnitDef { unit: 1, pins: vec![pin(1, 0, 0)], graphics: vec![] },
            UnitDef { unit: 2, pins: vec![pin(2, 0, 0)], graphics: vec![] },
        ],
    };
    let mut n = with_library(vec![dual]);
    for (unit, x) in [(1usize, 0i64), (2, 1000)] {
        n.visit(Element::Instance(SymbolInstance {
            lib_id: "Amp:Dual".to_string(),
            unit,
            placement: Placement { at: Point::new(x, 0), rotation: Rotation::R0, mirror: Mirror::X },
            properties: vec![prop("Reference", "U1"), prop("Value", "dual")],
        }))
        .unwrap();
    }
    n.visit(Element::Label(Point::new(1000, 0), "B".to_string())).unwrap();
    assert_eq!(n.dump().unwrap(), vec!["U1 1 B dual".to_string()]);
}
