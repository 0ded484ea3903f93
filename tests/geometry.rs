use std::collections::hash_map::DefaultHasher;
use std::hash::{Hash, Hasher};

use schematic_netlist::geometry::{bounding_box, Mirror, Placement, Point, Rotation, Transform};
use schematic_netlist::library::{Bounds, Graphic, PinDef, SymbolDef, SymbolInstance, UnitDef};

fn hash_of(p: &Point) -> u64 {
    let mut h = DefaultHasher::new();
    p.hash(&mut h);
    h.finish()
}

fn placed(x: i64, y: i64, rotation: Rotation, mirror: Mirror) -> Placement {
    Placement { at: Point::new(x, y), rotation, mirror }
}

#[test]
fn equal_points_by_other_paths_hash_alike() {
    let local = Point::new(254, -127);
    let a = placed(1000, 2000, Rotation::R90, Mirror::X).transform(&local);
    let b = placed(1000, 2000, Rotation::R270, Mirror::Y).transform(&local);
    assert_eq!(a, b);
    assert_eq!(hash_of(&a), hash_of(&b));
    assert_eq!(a, Point::new(1127, 2254));
}

#[test]
fn transform_each_rotation_and_mirror() {
    let p = Point::new(100, 50);
    assert_eq!(placed(0, 0, Rotation::R0, Mirror::Unmirrored).transform(&p), Point::new(100, -50));
    assert_eq!(placed(0, 0, Rotation::R0, Mirror::X).transform(&p), Point::new(100, 50));
    assert_eq!(placed(0, 0, Rotation::R0, Mirror::Y).transform(&p), Point::new(-100, -50));
    assert_eq!(placed(7, 8, Rotation::R0, Mirror::XY).transform(&p), Point::new(7, 8));
    assert_eq!(placed(0, 0, Rotation::R90, Mirror::X).transform(&p), Point::new(-50, 100));
    assert_eq!(placed(0, 0, Rotation::R180, Mirror::X).transform(&p), Point::new(-100, -50));
    assert_eq!(placed(10, 20, Rotation::R270, Mirror::X).transform(&p), Point::new(60, -80));
}

#[test]
fn transform_batch_row_by_row() {
    let pl = placed(1, 1, Rotation::R90, Mirror::Unmirrored);
    let out = pl.transform(&vec![Point::new(1, 0), Point::new(0, 2)]);
    assert_eq!(out, vec![Point::new(1, 0), Point::new(-1, 1)]);
}

#[test]
fn rotation_from_degrees() {
    assert_eq!(Rotation::from_degrees(0), Some(Rotation::R0));
    assert_eq!(Rotation::from_degrees(90), Some(Rotation::R90));
    assert_eq!(Rotation::from_degrees(-90), Some(Rotation::R270));
    assert_eq!(Rotation::from_degrees(540), Some(Rotation::R180));
    assert_eq!(Rotation::from_degrees(45), None);
}

#[test]
fn mirror_from_axis() {
    assert_eq!(Mirror::from_axis(""), Some(Mirror::Unmirrored));
    assert_eq!(Mirror::from_axis("x"), Some(Mirror::X));
    assert_eq!(Mirror::from_axis("y"), Some(Mirror::Y));
    assert_eq!(Mirror::from_axis("xy"), Some(Mirror::XY));
    assert_eq!(Mirror::from_axis("z"), None);
}

#[test]
fn bounding_box_of_points() {
    assert_eq!(bounding_box(&vec![]), None);
    let b = bounding_box(&vec![Point::new(3, -1), Point::new(-2, 4), Point::new(0, 0)]).unwrap();
    assert_eq!(b.min, Point::new(-2, -1));
    assert_eq!(b.max, Point::new(3, 4));
}

#[test]
fn bounds_union_applicable_units() {
    let def = SymbolDef {
        name: "X".to_string(),
        power: false,
        units: vec![
            UnitDef {
                unit: 0,
                pins: vec![PinDef { number: 1, electrical: "input".to_string(), at: Point::new(900, 900) }],
                graphics: vec![Graphic::Rectangle(Point::new(-10, -20), Point::new(10, 20))],
            },
            UnitDef {
                unit: 1,
                pins: vec![],
                graphics: vec![Graphic::Polyline(vec![Point::new(0, 0), Point::new(30, -5)]), Graphic::Other("arc".to_string())],
            },
            UnitDef { unit: 2, pins: vec![], graphics: vec![Graphic::Polyline(vec![Point::new(-500, 0)])] },
        ],
    };
    let inst = SymbolInstance {
        lib_id: "X".to_string(),
        unit: 1,
        placement: placed(0, 0, Rotation::R0, Mirror::X),
        properties: vec![],
    };
    let b = inst.bounds(&def).unwrap();
    assert_eq!(b.min, Point::new(-10, -20));
    assert_eq!(b.max, Point::new(30, 20));
    let empty = SymbolDef { name: "E".to_string(), power: false, units: vec![] };
    assert_eq!(inst.bounds(&empty), None);
}
