use calyx::ast::Compinst;
use calyx::ast::Component;
use calyx::ast::Control;
use calyx::ast::Decl;
use calyx::ast::Empty;
use calyx::ast::Port;
use calyx::ast::Portdef;
use calyx::ast::Std;
use calyx::ast::Structure;
use calyx::ast::Wire;
use calyx::lower::lower_component;
use calyx::lower::LowerError;
use calyx::structure::CellType;
use calyx::structure::Direction;
use calyx::structure::PortParent;
use calyx::structure::PortRef;

fn empty_control() -> Control {
    Control::Empty { data: Empty {} }
}

fn portdef(name: &str, width: u64) -> Portdef {
    Portdef { name: name.to_string(), width }
}

fn this(name: &str) -> Port {
    Port::This { port: name.to_string() }
}

fn at(component: &str, name: &str) -> Port {
    Port::Comp { component: component.to_string(), port: name.to_string() }
}

fn wire(src: Port, dest: Port) -> Structure {
    Structure::Wire { data: Wire { src, dest } }
}

#[test]
fn one_unconditional_wire_lowers_to_one_unguarded_assignment() {
    let comp = Component {
        name: "main".to_string(),
        inputs: vec![portdef("in", 32)],
        outputs: vec![portdef("out", 32)],
        structure: vec![wire(this("in"), this("out"))],
        control: empty_control(),
    };
    let ir = lower_component(comp).unwrap();
    assert_eq!(ir.groups.len(), 1);
    let group = ir.groups[0].as_ref().unwrap();
    assert_eq!(group.assignments.len(), 1);
    let a = &group.assignments[0];
    // The wire was unconditional, so the assignment has no guard.
    assert_eq!(a.guard, None);
    assert_eq!(a.src, PortRef { parent: PortParent::Cell(0), port: "in".to_string() });
    assert_eq!(a.dst, PortRef { parent: PortParent::Cell(0), port: "out".to_string() });
}

#[test]
fn synthesized_group_exposes_go_and_done_holes() {
    let comp = Component {
        name: "main".to_string(),
        inputs: vec![],
        outputs: vec![],
        structure: vec![],
        control: empty_control(),
    };
    let ir = lower_component(comp).unwrap();
    let group = ir.groups[0].as_ref().unwrap();
    assert_eq!(group.name, "_wires");
    assert_eq!(group.holes.len(), 2);
    assert_eq!(group.holes[0].name, "go");
    assert_eq!(group.holes[0].direction, Direction::Input);
    assert_eq!(group.holes[1].name, "done");
    assert_eq!(group.holes[1].direction, Direction::Output);
    assert!(matches!(group.holes[0].parent, PortParent::Group(0)));
    assert!(group.attributes.is_empty());
    assert!(group.assignments.is_empty());
    let go = group.find_hole(&"go".to_string()).unwrap();
    assert_eq!(group.holes[go].name, "go");
}

#[test]
fn lowering_lays_cells_out_in_declaration_order() {
    let comp = Component {
        name: "main".to_string(),
        inputs: vec![portdef("clk", 1)],
        outputs: vec![portdef("o", 8)],
        structure: vec![
            Structure::Decl {
                data: Decl { name: "sub".to_string(), component: "helper".to_string() },
            },
            Structure::Std {
                data: Std {
                    name: "reg".to_string(),
                    instance: Compinst { name: "std_reg".to_string(), params: vec![8] },
                },
            },
            wire(at("reg", "out"), this("o")),
        ],
        control: empty_control(),
    };
    let ir = lower_component(comp).unwrap();
    assert_eq!(ir.name, "main");
    assert_eq!(ir.cells.len(), 3);
    let this_cell = ir.cells[0].as_ref().unwrap();
    assert_eq!(this_cell.name, "main");
    assert_eq!(this_cell.prototype, CellType::ThisComponent);
    assert_eq!(this_cell.ports.len(), 2);
    assert_eq!(this_cell.ports[0].name, "clk");
    assert_eq!(this_cell.ports[0].width, 1);
    assert_eq!(this_cell.ports[0].direction, Direction::Input);
    assert_eq!(this_cell.ports[1].name, "o");
    assert_eq!(this_cell.ports[1].direction, Direction::Output);
    let sub = ir.cells[1].as_ref().unwrap();
    assert_eq!(sub.name, "sub");
    assert_eq!(sub.prototype, CellType::Component);
    let reg = ir.cells[2].as_ref().unwrap();
    assert_eq!(reg.name, "reg");
    assert_eq!(reg.prototype, CellType::Primitive);
    // The wire endpoint on the instance resolved to the instance's slot.
    let group = ir.groups[0].as_ref().unwrap();
    assert_eq!(group.assignments.len(), 1);
    assert_eq!(
        group.assignments[0].src,
        PortRef { parent: PortParent::Cell(2), port: "out".to_string() },
    );
    // The lowered component answers name lookups over its arena.
    assert_eq!(ir.find_cell(&"reg".to_string()), Some(2));
    assert_eq!(ir.find_cell(&"nowhere".to_string()), None);
}

#[test]
fn control_tree_passes_through_lowering_verbatim() {
    let control = Control::Enable {
        data: calyx::ast::Enable { comps: vec!["g".to_string()] },
    };
    let comp = Component {
        name: "main".to_string(),
        inputs: vec![],
        outputs: vec![],
        structure: vec![],
        control,
    };
    let ir = lower_component(comp).unwrap();
    match &ir.control {
        Control::Enable { data } => assert_eq!(data.comps, vec!["g".to_string()]),
        _ => panic!("control tree was rewritten"),
    }
}

#[test]
fn unknown_instance_name_is_reported_not_guessed() {
    let comp = Component {
        name: "main".to_string(),
        inputs: vec![],
        outputs: vec![portdef("o", 8)],
        structure: vec![wire(at("ghostly", "out"), this("o"))],
        control: empty_control(),
    };
    let err = lower_component(comp).unwrap_err();
    assert_eq!(err, LowerError::UnknownCell { component: "ghostly".to_string() });
}

#[test]
fn namespace_lowers_each_component_in_order() {
    let ns = calyx::ast::Namespace {
        name: "prog".to_string(),
        components: vec![
            Component {
                name: "first".to_string(),
                inputs: vec![portdef("i", 1)],
                outputs: vec![portdef("o", 1)],
                structure: vec![wire(this("i"), this("o"))],
                control: empty_control(),
            },
            Component {
                name: "second".to_string(),
                inputs: vec![],
                outputs: vec![],
                structure: vec![],
                control: empty_control(),
            },
        ],
    };
    let lowered = calyx::lower::lower_namespace(ns).unwrap();
    assert_eq!(lowered.len(), 2);
    assert_eq!(lowered[0].name, "first");
    assert_eq!(lowered[1].name, "second");
    assert_eq!(lowered[0].groups[0].as_ref().unwrap().assignments.len(), 1);
}

#[test]
fn namespace_reports_the_component_that_fails() {
    let ns = calyx::ast::Namespace {
        name: "prog".to_string(),
        components: vec![
            Component {
                name: "good".to_string(),
                inputs: vec![],
                outputs: vec![],
                structure: vec![],
                control: empty_control(),
            },
            Component {
                name: "bad".to_string(),
                inputs: vec![],
                outputs: vec![portdef("o", 1)],
                structure: vec![wire(at("missing", "q"), this("o"))],
                control: empty_control(),
            },
        ],
    };
    let err = calyx::lower::lower_namespace(ns).unwrap_err();
    assert_eq!(err, LowerError::UnknownCell { component: "missing".to_string() });
}
