use calyx::structure::Cell;
use calyx::structure::CellType;
use calyx::structure::Component;
use calyx::structure::Direction;
use calyx::structure::Group;
use calyx::structure::Port;
use calyx::structure::PortParent;
use calyx::ast::Control;
use calyx::ast::Empty;

fn port(name: &str, width: u64, direction: Direction, parent: PortParent) -> Port {
    Port { name: name.to_string(), width, direction, parent }
}

fn empty_control() -> Control {
    Control::Empty { data: Empty {} }
}

#[test]
fn find_port_returns_each_added_port() {
    let cell = Cell {
        name: "adder".to_string(),
        ports: vec![
            port("left", 32, Direction::Input, PortParent::Cell(0)),
            port("right", 32, Direction::Input, PortParent::Cell(0)),
            port("out", 32, Direction::Output, PortParent::Cell(0)),
        ],
        prototype: CellType::Primitive,
    };
    let left = cell.find_port(&"left".to_string()).unwrap();
    assert_eq!(left, 0);
    assert_eq!(cell.ports[left].name, "left");
    let out = cell.find_port(&"out".to_string()).unwrap();
    assert_eq!(out, 2);
    assert_eq!(cell.ports[out].width, 32);
}

#[test]
fn find_port_misses_with_empty_result() {
    let cell = Cell {
        name: "adder".to_string(),
        ports: vec![port("left", 32, Direction::Input, PortParent::Cell(0))],
        prototype: CellType::Primitive,
    };
    assert_eq!(cell.find_port(&"missing".to_string()), None);
    let empty = Cell { name: "bare".to_string(), ports: vec![], prototype: CellType::Component };
    assert_eq!(empty.find_port(&"left".to_string()), None);
}

#[test]
fn find_hole_ignores_insertion_order() {
    let first = Group {
        name: "g".to_string(),
        assignments: vec![],
        holes: vec![
            port("go", 1, Direction::Inout, PortParent::Group(0)),
            port("done", 1, Direction::Inout, PortParent::Group(0)),
        ],
        attributes: vec![],
    };
    let second = Group {
        name: "g".to_string(),
        assignments: vec![],
        holes: vec![
            port("done", 1, Direction::Inout, PortParent::Group(0)),
            port("go", 1, Direction::Inout, PortParent::Group(0)),
        ],
        attributes: vec![],
    };
    let a = first.find_hole(&"go".to_string()).unwrap();
    let b = second.find_hole(&"go".to_string()).unwrap();
    assert_eq!(first.holes[a].name, "go");
    assert_eq!(second.holes[b].name, "go");
    assert_eq!(first.find_hole(&"neither".to_string()), None);
}

#[test]
fn get_attribute_finds_annotations() {
    let group = Group {
        name: "g".to_string(),
        assignments: vec![],
        holes: vec![],
        attributes: vec![("static".to_string(), 3), ("bound".to_string(), 7)],
    };
    assert_eq!(group.get_attribute(&"static".to_string()), Some(3));
    assert_eq!(group.get_attribute(&"bound".to_string()), Some(7));
    assert_eq!(group.get_attribute(&"absent".to_string()), None);
}

#[test]
fn constant_name_spells_value_and_width() {
    assert_eq!(Cell::constant_name(0, 1), "_0_1");
    assert_eq!(Cell::constant_name(42, 32), "_42_32");
    assert_eq!(Cell::constant_name(18446744073709551615, 64), "_18446744073709551615_64");
}

#[test]
fn constant_name_is_deterministic() {
    assert_eq!(Cell::constant_name(7, 8), Cell::constant_name(7, 8));
}

#[test]
fn constant_name_never_collides() {
    assert_ne!(Cell::constant_name(1, 23), Cell::constant_name(12, 3));
    assert_ne!(Cell::constant_name(0, 1), Cell::constant_name(0, 2));
    assert_ne!(Cell::constant_name(1, 1), Cell::constant_name(2, 1));
}

#[test]
fn component_arena_adds_and_finds_cells() {
    let mut comp = Component::new("main".to_string(), empty_control());
    let a = comp.add_cell(Cell {
        name: "a".to_string(),
        ports: vec![],
        prototype: CellType::Primitive,
    });
    let b = comp.add_cell(Cell {
        name: "b".to_string(),
        ports: vec![],
        prototype: CellType::Component,
    });
    assert_eq!(a, 0);
    assert_eq!(b, 1);
    assert!(comp.has_cell(a));
    assert_eq!(comp.find_cell(&"b".to_string()), Some(b));
    assert_eq!(comp.find_cell(&"c".to_string()), None);
    comp.remove_cell(a);
    assert!(!comp.has_cell(a));
    assert_eq!(comp.find_cell(&"a".to_string()), None);
    assert_eq!(comp.find_cell(&"b".to_string()), Some(b));
}

#[test]
fn dropped_group_is_gone_not_resurrected() {
    let mut comp = Component::new("main".to_string(), empty_control());
    let gid = comp.add_group(Group {
        name: "update".to_string(),
        assignments: vec![],
        holes: vec![port("go", 1, Direction::Inout, PortParent::Group(0))],
        attributes: vec![],
    });
    // The hole's back-reference to its owner is a plain index.
    let hole = comp.groups[gid].as_ref().unwrap().holes[0].clone();
    let back_reference = match hole.parent {
        PortParent::Group(id) => id,
        PortParent::Cell(_) => panic!("hole must belong to a group"),
    };
    assert!(comp.has_group(back_reference));
    // Drop the owning entry while the hole still carries the index.
    comp.remove_group(gid);
    // Querying through the stale back-reference reports "gone" and must
    // not crash or hand back a revived entry.
    assert!(!comp.has_group(back_reference));
    assert!(comp.groups[back_reference].is_none());
    assert_eq!(hole.name, "go");
    // Removing again, or removing a slot that never existed, stays quiet.
    comp.remove_group(gid);
    comp.remove_group(17);
    assert!(!comp.has_group(gid));
}

#[test]
fn find_port_returns_the_first_of_equal_names() {
    let cell = Cell {
        name: "c".to_string(),
        ports: vec![
            port("x", 8, Direction::Input, PortParent::Cell(0)),
            port("dup", 8, Direction::Input, PortParent::Cell(0)),
            port("dup", 16, Direction::Output, PortParent::Cell(0)),
        ],
        prototype: CellType::Primitive,
    };
    let i = cell.find_port(&"dup".to_string()).unwrap();
    assert_eq!(i, 1);
    assert_eq!(cell.ports[i].width, 8);
}
