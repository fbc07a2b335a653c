//! Lowering: from the surface AST of a component to its IR graph.
//!
//! Lowering allocates the IR nodes and threads the ownership indices: the
//! sentinel cell carrying the component's own interface ports sits in
//! slot 0, one cell follows per declared sub-component or primitive
//! instance in declaration order, and every point-to-point wire becomes
//! one *unguarded* assignment inside a single synthesized group (the
//! surface layer cannot express guards, so no wire ever acquires one).
//! An endpoint naming an instance that no structure statement declares is
//! the one way lowering fails; the error carries the unknown name so the
//! caller can raise a diagnostic.

use vstd::prelude::*;
use vstd::string::StringExecFns;
use crate::ast;
use crate::ast::Id;
use crate::ast::Portdef;
use crate::ast::Structure;
use crate::schedule::PortV;
use crate::schedule::port_view;
use crate::schedule::clone_port;
use crate::structure::Assignment;
use crate::structure::Cell;
use crate::structure::CellType;
use crate::structure::Component;
use crate::structure::Direction;
use crate::structure::Group;
use crate::structure::Port;
use crate::structure::PortParent;
use crate::structure::PortRef;

verus! {

/// Lowering fails only on a wire endpoint that names an unknown
/// instance; the unknown name is carried for diagnostics.
#[derive(Debug, Clone, PartialEq, Eq)]
pub enum LowerError {
    UnknownCell { component: Id },
}

/// The name and kind of the cell each structure statement declares, in
/// declaration order; wires declare no cell.
pub open spec fn cell_names(structure: Seq<Structure>) -> Seq<(Seq<char>, CellType)>
    decreases structure,
{
    if structure.len() == 0 {
        Seq::empty()
    } else {
        let rest = cell_names(structure.subrange(1, structure.len() as int));
        match structure[0] {
            Structure::Decl { data } => seq![(data.name@, CellType::Component)] + rest,
            Structure::Std { data } => seq![(data.name@, CellType::Primitive)] + rest,
            Structure::Wire { data } => rest,
        }
    }
}

/// The endpoints of the wires among the structure statements, in order.
pub open spec fn wire_views(structure: Seq<Structure>) -> Seq<(PortV, PortV)>
    decreases structure,
{
    if structure.len() == 0 {
        Seq::empty()
    } else {
        let rest = wire_views(structure.subrange(1, structure.len() as int));
        match structure[0] {
            Structure::Decl { data } => rest,
            Structure::Std { data } => rest,
            Structure::Wire { data } => seq![(port_view(data.src), port_view(data.dest))] + rest,
        }
    }
}

/// `cell_names` distributes over concatenation.
pub proof fn lemma_cell_names_append(x: Seq<Structure>, y: Seq<Structure>)
    ensures
        cell_names(x + y) == cell_names(x) + cell_names(y),
    decreases x,
{
    if x.len() == 0 {
        assert(x + y =~= y);
        assert(cell_names(x) + cell_names(y) =~= cell_names(y));
    } else {
        let rest = x.subrange(1, x.len() as int);
        lemma_cell_names_append(rest, y);
        assert((x + y).subrange(1, (x + y).len() as int) =~= rest + y);
        assert((x + y)[0] == x[0]);
        match x[0] {
            Structure::Decl { data } => {
                assert(seq![(data.name@, CellType::Component)] + (cell_names(rest) + cell_names(y))
                    =~= (seq![(data.name@, CellType::Component)] + cell_names(rest)) + cell_names(
                    y,
                ));
            },
            Structure::Std { data } => {
                assert(seq![(data.name@, CellType::Primitive)] + (cell_names(rest) + cell_names(y))
                    =~= (seq![(data.name@, CellType::Primitive)] + cell_names(rest)) + cell_names(
                    y,
                ));
            },
            Structure::Wire { data } => {},
        }
    }
}

/// `wire_views` distributes over concatenation.
pub proof fn lemma_wire_views_append(x: Seq<Structure>, y: Seq<Structure>)
    ensures
        wire_views(x + y) == wire_views(x) + wire_views(y),
    decreases x,
{
    if x.len() == 0 {
        assert(x + y =~= y);
        assert(wire_views(x) + wire_views(y) =~= wire_views(y));
    } else {
        let rest = x.subrange(1, x.len() as int);
        lemma_wire_views_append(rest, y);
        assert((x + y).subrange(1, (x + y).len() as int) =~= rest + y);
        assert((x + y)[0] == x[0]);
        match x[0] {
            Structure::Decl { data } => {},
            Structure::Std { data } => {},
            Structure::Wire { data } => {
                assert(seq![(port_view(data.src), port_view(data.dest))] + (wire_views(rest)
                    + wire_views(y)) =~= (seq![(port_view(data.src), port_view(data.dest))]
                    + wire_views(rest)) + wire_views(y));
            },
        }
    }
}

/// The position of the first declared cell bearing the name, if any.
pub open spec fn name_index(names: Seq<(Seq<char>, CellType)>, n: Seq<char>) -> Option<int>
    decreases names,
{
    if names.len() == 0 {
        Option::None
    } else if names[0].0 == n {
        Option::Some(0)
    } else {
        match name_index(names.subrange(1, names.len() as int), n) {
            Option::Some(j) => Option::Some(1 + j),
            Option::None => Option::None,
        }
    }
}

/// A position bearing the name behind a prefix that does not bear it is
/// exactly where `name_index` points.
pub proof fn lemma_name_index_found(names: Seq<(Seq<char>, CellType)>, n: Seq<char>, k: int)
    requires
        0 <= k < names.len(),
        names[k].0 == n,
        forall|j: int| 0 <= j < k ==> names[j].0 != n,
    ensures
        name_index(names, n) == Option::Some(k),
    decreases names,
{
    if k > 0 {
        let rest = names.subrange(1, names.len() as int);
        assert forall|j: int| 0 <= j < k - 1 implies rest[j].0 != n by {
            assert(rest[j] == names[j + 1]);
        }
        assert(rest[k - 1] == names[k]);
        lemma_name_index_found(rest, n, k - 1);
    }
}

/// When no declared cell bears the name, `name_index` reports none.
pub proof fn lemma_name_index_missing(names: Seq<(Seq<char>, CellType)>, n: Seq<char>)
    requires
        forall|j: int| 0 <= j < names.len() ==> names[j].0 != n,
    ensures
        name_index(names, n) is None,
    decreases names,
{
    if names.len() > 0 {
        let rest = names.subrange(1, names.len() as int);
        assert forall|j: int| 0 <= j < rest.len() implies rest[j].0 != n by {
            assert(rest[j] == names[j + 1]);
        }
        lemma_name_index_missing(rest, n);
    }
}

/// What a port reference denotes: the owning slot and the port name.
pub open spec fn port_ref_view(r: PortRef) -> (PortParent, Seq<char>) {
    (r.parent, r.port@)
}

/// Where a surface endpoint resolves among the lowered cells: the
/// enclosing component's own ports live on the sentinel cell in slot 0,
/// and an instance name resolves to the slot after its position in
/// declaration order.  An unknown instance name resolves to nothing.
pub open spec fn resolve_v(names: Seq<(Seq<char>, CellType)>, p: PortV) -> Option<
    (PortParent, Seq<char>),
> {
    match p {
        PortV::This { port } => Option::Some((PortParent::Cell(0), port)),
        PortV::Comp { component, port } => match name_index(names, component) {
            Option::Some(j) => Option::Some((PortParent::Cell((1 + j) as usize), port)),
            Option::None => Option::None,
        },
    }
}

/// Whether the slot holds a live, still-portless cell with this name and
/// kind.
pub open spec fn sub_slot_matches(c: Option<Cell>, entry: (Seq<char>, CellType)) -> bool {
    match c {
        Some(cell) => cell.name@ == entry.0 && cell.prototype == entry.1 && cell.ports@.len()
            == 0,
        None => false,
    }
}

/// Whether the lowered cell arena lays the declared cells out in
/// declaration order behind the sentinel slot.
pub open spec fn cells_match(
    cells: Seq<Option<Cell>>,
    names: Seq<(Seq<char>, CellType)>,
) -> bool {
    cells.len() == 1 + names.len() && (forall|j: int|
        0 <= j < names.len() ==> sub_slot_matches(#[trigger] cells[j + 1], names[j]))
}

/// Whether the port carries the declared name and width in the given
/// direction on the sentinel cell.
pub open spec fn port_matches_def(p: Port, d: Portdef, dir: Direction) -> bool {
    p.name@ == d.name@ && p.width == d.width && p.direction == dir && p.parent == PortParent::Cell(
        0,
    )
}

/// Whether the slot holds the sentinel cell for the component interface:
/// the inputs first, then the outputs, all backed by slot 0.
pub open spec fn lowered_this_cell(
    c: Option<Cell>,
    name: Seq<char>,
    inputs: Seq<Portdef>,
    outputs: Seq<Portdef>,
) -> bool {
    match c {
        Some(cell) => cell.name@ == name && cell.prototype == CellType::ThisComponent
            && cell.ports@.len() == inputs.len() + outputs.len() && (forall|i: int|
            0 <= i < inputs.len() ==> port_matches_def(
                #[trigger] cell.ports@[i],
                inputs[i],
                Direction::Input,
            )) && (forall|i: int|
            0 <= i < outputs.len() ==> port_matches_def(
                #[trigger] cell.ports@[inputs.len() + i],
                outputs[i],
                Direction::Output,
            )),
        None => false,
    }
}

/// Whether the port is a hole of the synthesized group with this name
/// and direction.
pub open spec fn hole_shape(p: Port, name: Seq<char>, dir: Direction) -> bool {
    p.name@ == name && p.width == 1 && p.direction == dir && p.parent == PortParent::Group(0)
}

/// Whether the group is the synthesized wire group: its conventional
/// name, a `go` and a `done` hole, and no attributes.
pub open spec fn wires_group_shape(g: Group) -> bool {
    g.name@ == "_wires"@ && g.holes@.len() == 2 && hole_shape(g.holes@[0], "go"@, Direction::Input)
        && hole_shape(g.holes@[1], "done"@, Direction::Output) && g.attributes@.len() == 0
}

/// Whether the assignment lowers the wire: no guard, and each endpoint
/// resolved among the declared cells.
pub open spec fn assignment_matches(
    names: Seq<(Seq<char>, CellType)>,
    a: Assignment,
    w: (PortV, PortV),
) -> bool {
    a.guard is None && Option::Some(port_ref_view(a.src)) == resolve_v(names, w.0)
        && Option::Some(port_ref_view(a.dst)) == resolve_v(names, w.1)
}

/// Whether the assignments lower the wires one for one, in order.
pub open spec fn assignments_match(
    names: Seq<(Seq<char>, CellType)>,
    asgns: Seq<Assignment>,
    ws: Seq<(PortV, PortV)>,
) -> bool {
    asgns.len() == ws.len() && (forall|k: int|
        0 <= k < ws.len() ==> assignment_matches(names, #[trigger] asgns[k], ws[k]))
}

/// Whether every wire endpoint resolves among the declared cells.
pub open spec fn all_resolvable(
    names: Seq<(Seq<char>, CellType)>,
    ws: Seq<(PortV, PortV)>,
) -> bool {
    forall|k: int|
        0 <= k < ws.len() ==> (resolve_v(names, (#[trigger] ws[k]).0) is Some && resolve_v(
            names,
            ws[k].1,
        ) is Some)
}

/// Whether the endpoint names this unknown instance.
pub open spec fn comp_named_unresolvable(
    names: Seq<(Seq<char>, CellType)>,
    p: PortV,
    n: Seq<char>,
) -> bool {
    match p {
        PortV::Comp { component, port } => component == n && name_index(names, component) is None,
        PortV::This { port } => false,
    }
}

/// Whether some wire endpoint names this unknown instance.
pub open spec fn unresolvable_named(
    names: Seq<(Seq<char>, CellType)>,
    ws: Seq<(PortV, PortV)>,
    n: Seq<char>,
) -> bool {
    exists|k: int|
        0 <= k < ws.len() && (comp_named_unresolvable(names, (#[trigger] ws[k]).0, n)
            || comp_named_unresolvable(names, ws[k].1, n))
}

/// Resolve one surface endpoint among the lowered cells, or hand back
/// the unknown instance name.
fn resolve_port(
    cells: &Vec<Option<Cell>>,
    p: &ast::Port,
    Ghost(names): Ghost<Seq<(Seq<char>, CellType)>>,
) -> (r: Result<PortRef, Id>)
    requires
        cells_match(cells@, names),
    ensures
        (match r {
            Ok(pr) => resolve_v(names, port_view(*p)) == Option::Some(port_ref_view(pr)),
            Err(n) => comp_named_unresolvable(names, port_view(*p), n@),
        }),
{
    match p {
        ast::Port::This { port } => Ok(PortRef { parent: PortParent::Cell(0), port: port.clone() }),
        ast::Port::Comp { component, port } => {
            let mut i: usize = 1;
            while i < cells.len()
                invariant
                    1 <= i <= cells@.len(),
                    cells_match(cells@, names),
                    port_view(*p) == (PortV::Comp { component: component@, port: port@ }),
                    forall|j: int| 0 <= j < i - 1 ==> names[j].0 != component@,
                decreases cells@.len() - i,
            {
                let ghost jj: int = i as int - 1;
                proof {
                    assert(sub_slot_matches(cells@[jj + 1], names[jj]));
                }
                match &cells[i] {
                    Some(cell) => {
                        if cell.name == *component {
                            proof {
                                lemma_name_index_found(names, component@, jj);
                                assert((1 + jj) as usize == i);
                                assert(port_view(*p) == PortV::Comp {
                                    component: component@,
                                    port: port@,
                                });
                                assert(resolve_v(names, port_view(*p)) == Option::Some(
                                    (PortParent::Cell(i), port@),
                                ));
                            }
                            return Ok(
                                PortRef { parent: PortParent::Cell(i), port: port.clone() },
                            );
                        }
                    },
                    None => {},
                }
                i += 1;
            }
            proof {
                lemma_name_index_missing(names, component@);
            }
            Err(component.clone())
        },
    }
}

/// Lower each collected wire to an unguarded assignment, or hand back
/// the first unknown instance name an endpoint names.
fn build_assignments(
    cells: &Vec<Option<Cell>>,
    pairs: &Vec<(ast::Port, ast::Port)>,
    Ghost(names): Ghost<Seq<(Seq<char>, CellType)>>,
    Ghost(ws): Ghost<Seq<(PortV, PortV)>>,
) -> (r: Result<Vec<Assignment>, Id>)
    requires
        cells_match(cells@, names),
        pairs@.len() == ws.len(),
        forall|m: int| 0 <= m < pairs@.len() ==> ((port_view((#[trigger] pairs@[m]).0), port_view(
            pairs@[m].1,
        )) == ws[m]),
    ensures
        (match r {
            Ok(asgns) => assignments_match(names, asgns@, ws) && all_resolvable(names, ws),
            Err(n) => unresolvable_named(names, ws, n@) && !all_resolvable(names, ws),
        }),
{
    let mut asgns: Vec<Assignment> = Vec::new();
    let mut k: usize = 0;
    while k < pairs.len()
        invariant
            k <= pairs@.len(),
            pairs@.len() == ws.len(),
            forall|m: int| 0 <= m < pairs@.len() ==> ((port_view((#[trigger] pairs@[m]).0),
                port_view(pairs@[m].1)) == ws[m]),
            cells_match(cells@, names),
            asgns@.len() == k,
            forall|m: int| 0 <= m < k ==> assignment_matches(names, #[trigger] asgns@[m], ws[m]),
        decreases pairs@.len() - k,
    {
        proof {
            assert((port_view(pairs@[k as int].0), port_view(pairs@[k as int].1))
                == ws[k as int]);
        }
        let src_ref = match resolve_port(cells, &pairs[k].0, Ghost(names)) {
            Ok(pr) => pr,
            Err(n) => {
                proof {
                    assert(comp_named_unresolvable(names, ws[k as int].0, n@));
                    assert(!(resolve_v(names, ws[k as int].0) is Some));
                    assert(!all_resolvable(names, ws)) by {
                        assert(0 <= k as int && (k as int) < ws.len());
                    }
                    assert(unresolvable_named(names, ws, n@));
                }
                return Err(n);
            },
        };
        let dst_ref = match resolve_port(cells, &pairs[k].1, Ghost(names)) {
            Ok(pr) => pr,
            Err(n) => {
                proof {
                    assert(comp_named_unresolvable(names, ws[k as int].1, n@));
                    assert(!(resolve_v(names, ws[k as int].1) is Some));
                    assert(!all_resolvable(names, ws)) by {
                        assert(0 <= k as int && (k as int) < ws.len());
                    }
                    assert(unresolvable_named(names, ws, n@));
                }
                return Err(n);
            },
        };
        asgns.push(Assignment { dst: dst_ref, src: src_ref, guard: Option::None });
        k += 1;
    }
    proof {
        assert forall|m: int| 0 <= m < ws.len() implies (resolve_v(names, (#[trigger] ws[m]).0)
            is Some && resolve_v(names, ws[m].1) is Some) by {
            assert(assignment_matches(names, asgns@[m], ws[m]));
        }
    }
    Ok(asgns)
}

/// Whether lowering the component is owed success: every wire endpoint
/// resolves among its declared cells.
pub open spec fn component_resolvable(comp: ast::Component) -> bool {
    all_resolvable(cell_names(comp.structure@), wire_views(comp.structure@))
}

/// Everything lowering promises of a successful result: name and control
/// preserved, the sentinel interface cell in slot 0, the declared cells
/// in order behind it, and one synthesized group lowering the wires one
/// for one without guards.
pub open spec fn lowered_component_shape(ir: Component, comp: ast::Component) -> bool {
    ir.name == comp.name && ir.control == comp.control && cells_match(
        ir.cells@,
        cell_names(comp.structure@),
    ) && lowered_this_cell(ir.cells@[0], comp.name@, comp.inputs@, comp.outputs@)
        && ir.groups@.len() == 1 && (match ir.groups@[0] {
        Some(g) => wires_group_shape(g) && assignments_match(
            cell_names(comp.structure@),
            g.assignments@,
            wire_views(comp.structure@),
        ),
        None => false,
    })
}

/// Lower a surface component to its IR graph.
///
/// Succeeds exactly when every wire endpoint resolves: the result then
/// holds the sentinel interface cell in slot 0, the declared cells in
/// order behind it, and one synthesized group whose assignments carry the
/// wires one for one, each without a guard.  The control tree passes
/// through verbatim.  An endpoint naming an undeclared instance yields
/// the error carrying that name.
pub fn lower_component(comp: ast::Component) -> (r: Result<Component, LowerError>)
    ensures
        ((r is Ok) <==> component_resolvable(comp)),
        (match r {
            Ok(ir) => lowered_component_shape(ir, comp),
            Err(e) => (match e {
                LowerError::UnknownCell { component } => unresolvable_named(
                    cell_names(comp.structure@),
                    wire_views(comp.structure@),
                    component@,
                ),
            }),
        }),
{
    let ast::Component { name, inputs, outputs, structure, control } = comp;
    let mut ports: Vec<Port> = Vec::new();
    let mut i: usize = 0;
    while i < inputs.len()
        invariant
            i <= inputs@.len(),
            ports@.len() == i,
            forall|j: int| 0 <= j < i ==> port_matches_def(
                #[trigger] ports@[j],
                inputs@[j],
                Direction::Input,
            ),
        decreases inputs@.len() - i,
    {
        ports.push(
            Port {
                name: inputs[i].name.clone(),
                width: inputs[i].width,
                direction: Direction::Input,
                parent: PortParent::Cell(0),
            },
        );
        i += 1;
    }
    let mut i: usize = 0;
    while i < outputs.len()
        invariant
            i <= outputs@.len(),
            ports@.len() == inputs@.len() + i,
            forall|j: int| 0 <= j < inputs@.len() ==> port_matches_def(
                #[trigger] ports@[j],
                inputs@[j],
                Direction::Input,
            ),
            forall|j: int| 0 <= j < i ==> port_matches_def(
                #[trigger] ports@[inputs@.len() + j],
                outputs@[j],
                Direction::Output,
            ),
        decreases outputs@.len() - i,
    {
        ports.push(
            Port {
                name: outputs[i].name.clone(),
                width: outputs[i].width,
                direction: Direction::Output,
                parent: PortParent::Cell(0),
            },
        );
        i += 1;
    }
    let this_cell = Cell { name: name.clone(), ports, prototype: CellType::ThisComponent };
    let mut cells: Vec<Option<Cell>> = Vec::new();
    cells.push(Some(this_cell));
    let mut pairs: Vec<(ast::Port, ast::Port)> = Vec::new();
    let ghost st = structure@;
    proof {
        assert(st.subrange(0, 0) =~= Seq::<Structure>::empty());
    }
    let mut j: usize = 0;
    while j < structure.len()
        invariant
            j <= st.len(),
            structure@ == st,
            cells_match(cells@, cell_names(st.subrange(0, j as int))),
            lowered_this_cell(cells@[0], name@, inputs@, outputs@),
            pairs@.len() == wire_views(st.subrange(0, j as int)).len(),
            forall|k: int| 0 <= k < pairs@.len() ==> ((port_view((#[trigger] pairs@[k]).0),
                port_view(pairs@[k].1)) == wire_views(st.subrange(0, j as int))[k]),
        decreases st.len() - j,
    {
        let ghost prefix = st.subrange(0, j as int);
        proof {
            assert(st.subrange(0, j + 1) =~= prefix + seq![st[j as int]]);
            lemma_cell_names_append(prefix, seq![st[j as int]]);
            lemma_wire_views_append(prefix, seq![st[j as int]]);
            assert(seq![st[j as int]].subrange(1, 1) =~= Seq::<Structure>::empty());
            assert(cell_names(Seq::<Structure>::empty()) =~= Seq::<(Seq<char>, CellType)>::empty());
            assert(wire_views(Seq::<Structure>::empty()) =~= Seq::<(PortV, PortV)>::empty());
            assert(st.subrange(0, j as int + 1).len() == j + 1);
        }
        match &structure[j] {
            Structure::Decl { data } => {
                cells.push(
                    Some(
                        Cell {
                            name: data.name.clone(),
                            ports: Vec::new(),
                            prototype: CellType::Component,
                        },
                    ),
                );
                proof {
                    assert(cell_names(seq![st[j as int]]) =~= seq![
                        (data.name@, CellType::Component),
                    ]);
                    assert(wire_views(seq![st[j as int]]) =~= Seq::<(PortV, PortV)>::empty());
                }
            },
            Structure::Std { data } => {
                cells.push(
                    Some(
                        Cell {
                            name: data.name.clone(),
                            ports: Vec::new(),
                            prototype: CellType::Primitive,
                        },
                    ),
                );
                proof {
                    assert(cell_names(seq![st[j as int]]) =~= seq![
                        (data.name@, CellType::Primitive),
                    ]);
                    assert(wire_views(seq![st[j as int]]) =~= Seq::<(PortV, PortV)>::empty());
                }
            },
            Structure::Wire { data } => {
                pairs.push((clone_port(&data.src), clone_port(&data.dest)));
                proof {
                    assert(cell_names(seq![st[j as int]]) =~= Seq::<
                        (Seq<char>, CellType),
                    >::empty());
                    assert(wire_views(seq![st[j as int]]) =~= seq![
                        (port_view(data.src), port_view(data.dest)),
                    ]);
                }
            },
        }
        j += 1;
    }
    proof {
        assert(st.subrange(0, st.len() as int) =~= st);
    }
    let ghost names = cell_names(st);
    let ghost ws = wire_views(st);
    let asgns = match build_assignments(&cells, &pairs, Ghost(names), Ghost(ws)) {
        Ok(a) => a,
        Err(n) => {
            return Err(LowerError::UnknownCell { component: n });
        },
    };
    let mut holes: Vec<Port> = Vec::new();
    holes.push(
        Port {
            name: String::from_str("go"),
            width: 1,
            direction: Direction::Input,
            parent: PortParent::Group(0),
        },
    );
    holes.push(
        Port {
            name: String::from_str("done"),
            width: 1,
            direction: Direction::Output,
            parent: PortParent::Group(0),
        },
    );
    let group = Group {
        name: String::from_str("_wires"),
        assignments: asgns,
        holes,
        attributes: Vec::new(),
    };
    let mut groups: Vec<Option<Group>> = Vec::new();
    groups.push(Some(group));
    Ok(Component { name, cells, groups, control })
}


/// Lower every component of a namespace in order, or report the first
/// unknown instance name met.  Succeeds exactly when every component of
/// the namespace resolves.
pub fn lower_namespace(ns: ast::Namespace) -> (r: Result<Vec<Component>, LowerError>)
    ensures
        ((r is Ok) <==> (forall|i: int|
            0 <= i < ns.components@.len() ==> component_resolvable(#[trigger] ns.components@[i]))),
        (match r {
            Ok(v) => v@.len() == ns.components@.len() && (forall|i: int|
                0 <= i < v@.len() ==> lowered_component_shape(
                    #[trigger] v@[i],
                    ns.components@[i],
                )),
            Err(e) => exists|i: int|
                0 <= i < ns.components@.len() && !component_resolvable(
                    #[trigger] ns.components@[i],
                ),
        }),
{
    lower_components(ns.components)
}

/// Lower a list of surface components in order.
fn lower_components(comps: Vec<ast::Component>) -> (r: Result<Vec<Component>, LowerError>)
    ensures
        ((r is Ok) <==> (forall|i: int|
            0 <= i < comps@.len() ==> component_resolvable(#[trigger] comps@[i]))),
        (match r {
            Ok(v) => v@.len() == comps@.len() && (forall|i: int|
                0 <= i < v@.len() ==> lowered_component_shape(#[trigger] v@[i], comps@[i])),
            Err(e) => exists|i: int|
                0 <= i < comps@.len() && !component_resolvable(#[trigger] comps@[i]),
        }),
    decreases comps@.len(),
{
    let ghost cs0 = comps@;
    let mut comps = comps;
    if comps.len() == 0 {
        let out: Vec<Component> = Vec::new();
        Ok(out)
    } else {
        let head = comps.remove(0);
        proof {
            assert(head == cs0[0]);
            assert(comps@ =~= cs0.subrange(1, cs0.len() as int));
        }
        let lowered = match lower_component(head) {
            Ok(ir) => ir,
            Err(e) => {
                return Err(e);
            },
        };
        let rest = match lower_components(comps) {
            Ok(v) => v,
            Err(e) => {
                proof {
                    let tail = cs0.subrange(1, cs0.len() as int);
                    let j = choose|j: int|
                        0 <= j < tail.len() && !component_resolvable(#[trigger] tail[j]);
                    assert(cs0[j + 1] == tail[j]);
                }
                return Err(e);
            },
        };
        let ghost restv = rest@;
        let mut out = rest;
        out.insert(0, lowered);
        proof {
            let tail = cs0.subrange(1, cs0.len() as int);
            assert forall|i: int| 0 <= i < out@.len() implies lowered_component_shape(
                #[trigger] out@[i],
                cs0[i],
            ) by {
                if i > 0 {
                    assert(out@[i] == restv[i - 1]);
                    assert(tail[i - 1] == cs0[i]);
                }
            }
            assert forall|i: int| 0 <= i < cs0.len() implies component_resolvable(
                #[trigger] cs0[i],
            ) by {
                if i > 0 {
                    assert(tail[i - 1] == cs0[i]);
                }
            }
        }
        Ok(out)
    }
}

} // verus!
