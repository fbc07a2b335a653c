//! The IR graph: cells, ports, groups and guarded assignments.
//!
//! Ownership flows strictly downward: a component owns its cells and
//! groups in slot arenas, and a cell or group owns its ports by value.  A
//! port's back-reference to its parent is a plain slot index
//! ([`PortParent`]): it is used for lookup only and never keeps its
//! target alive, so freeing a slot frees the entry even while ports still
//! carry the index, and resolving a freed index reports nothing rather
//! than a stale entry.

use vstd::prelude::*;
use vstd::pervasive::VecAdditionalExecFns;
use crate::ast::Id;
use crate::ast::Control;
use crate::naming;

verus! {

/// Direction of a port on a cell.
#[derive(Clone, Copy, Debug, PartialEq, Eq, Structural)]
pub enum Direction {
    /// Input port.
    Input,
    /// Output port.
    Output,
    /// Input-output "port".  Reserved for the holes of a group.
    Inout,
}

/// Where a port belongs: ports come from cells or from groups.  The slot
/// index is a non-owning back-reference into the owning component's
/// arena.
#[derive(Clone, Copy, Debug, PartialEq, Eq, Structural)]
pub enum PortParent {
    Cell(usize),
    Group(usize),
}

/// A named, fixed-width, directional connection point on a cell or group.
#[derive(Clone, Debug)]
pub struct Port {
    /// Name of the port.
    pub name: Id,
    /// Width of the port.
    pub width: u64,
    /// Direction of the port.
    pub direction: Direction,
    /// Non-owning back-reference to this port's parent.
    pub parent: PortParent,
}

/// The kind of unit a cell instantiates.
#[derive(Clone, Copy, Debug, PartialEq, Eq, Structural)]
pub enum CellType {
    /// Cell constructed from a primitive definition.
    Primitive,
    /// Cell constructed from a user-defined component.
    Component,
    /// The sentinel cell that carries the enclosing component's own
    /// interface ports.
    ThisComponent,
    /// A synthesized constant source.
    Constant,
}

/// An instantiated cell: a named unit owning an ordered list of ports.
#[derive(Clone, Debug)]
pub struct Cell {
    /// Name of this cell.
    pub name: Id,
    /// Ports on this cell.
    pub ports: Vec<Port>,
    /// Underlying kind of this cell.
    pub prototype: CellType,
}

/// Whether some port in the list bears the name.
pub open spec fn has_port_named(ports: Seq<Port>, name: Seq<char>) -> bool {
    exists|j: int| 0 <= j < ports.len() && ports[j].name@ == name
}

/// Look up the first port with the given name in a list; the returned
/// handle is the port's position in the owning list.
fn find_named(ports: &Vec<Port>, name: &Id) -> (r: Option<usize>)
    ensures
        (match r {
            Some(i) => i < ports@.len() && ports@[i as int].name@ == name@ && (forall|j: int|
                0 <= j < i ==> ports@[j].name@ != name@),
            None => !has_port_named(ports@, name@),
        }),
{
    let mut i: usize = 0;
    while i < ports.len()
        invariant
            i <= ports@.len(),
            forall|j: int| 0 <= j < i ==> ports@[j].name@ != name@,
        decreases ports@.len() - i,
    {
        if ports[i].name == *name {
            return Some(i);
        }
        i += 1;
    }
    None
}

impl Cell {
    /// Look up the named port on this cell, if it exists.  The handle is
    /// the port's position in `ports`; a miss is an empty result, never a
    /// failure.
    pub fn find_port(&self, name: &Id) -> (r: Option<usize>)
        ensures
            (match r {
                Some(i) => i < self.ports@.len() && self.ports@[i as int].name@ == name@ && (
                forall|j: int| 0 <= j < i ==> self.ports@[j].name@ != name@),
                None => !has_port_named(self.ports@, name@),
            }),
    {
        find_named(&self.ports, name)
    }

    /// The canonical name of the cell synthesized for a constant of this
    /// value and width: deterministic, and distinct for distinct pairs
    /// (see `naming::lemma_constant_name_injective`), so repeated requests
    /// for one constant may be deduplicated by name equality.
    pub fn constant_name(val: u64, width: u64) -> (r: Id)
        ensures
            r@ == naming::constant_name_spec(val, width),
    {
        let mut s = String::new();
        naming::push_separator(&mut s);
        naming::push_decimal(&mut s, val);
        naming::push_separator(&mut s);
        naming::push_decimal(&mut s, width);
        proof {
            assert(s@ =~= naming::constant_name_spec(val, width));
        }
        s
    }
}

/// A non-owning reference to a port: the slot of the owning cell or
/// group, and the port's name there.
#[derive(Clone, Debug, PartialEq, Eq)]
pub struct PortRef {
    /// The owning cell or group.
    pub parent: PortParent,
    /// The port's name on that owner.
    pub port: Id,
}

/// A boolean expression over ports guarding an assignment.
#[derive(Debug, PartialEq, Eq)]
pub enum Guard {
    /// Always true.
    True,
    /// The value carried by a port.
    Port(PortRef),
    /// Both sub-guards hold.
    And(Box<Guard>, Box<Guard>),
    /// At least one sub-guard holds.
    Or(Box<Guard>, Box<Guard>),
    /// The sub-guard does not hold.
    Not(Box<Guard>),
}

/// A guarded dataflow edge: `dst` receives `src`'s value exactly when the
/// guard evaluates true; an absent guard means unconditionally.
#[derive(Debug, PartialEq, Eq)]
pub struct Assignment {
    /// The destination of the assignment.
    pub dst: PortRef,
    /// The source of the assignment.
    pub src: PortRef,
    /// The guard for this assignment.
    pub guard: Option<Guard>,
}

/// A named bundle of guarded assignments performing one schedulable
/// activity, with the control-plane holes it exposes (at minimum `go` and
/// `done`) and opaque scheduling attributes.
#[derive(Debug)]
pub struct Group {
    /// Name of this group.
    pub name: Id,
    /// The assignments of this group.
    pub assignments: Vec<Assignment>,
    /// Holes for this group.
    pub holes: Vec<Port>,
    /// Attributes for this group: opaque key-to-integer annotations, kept
    /// in insertion order.
    pub attributes: Vec<(Id, u64)>,
}

impl Group {
    /// Look up the named hole on this group, if it exists; the mirror of
    /// `Cell::find_port` for control-plane ports.
    pub fn find_hole(&self, name: &Id) -> (r: Option<usize>)
        ensures
            (match r {
                Some(i) => i < self.holes@.len() && self.holes@[i as int].name@ == name@ && (
                forall|j: int| 0 <= j < i ==> self.holes@[j].name@ != name@),
                None => !has_port_named(self.holes@, name@),
            }),
    {
        find_named(&self.holes, name)
    }

    /// The value annotated under the key, if any.
    pub fn get_attribute(&self, key: &Id) -> (r: Option<u64>)
        ensures
            (match r {
                Some(v) => exists|j: int|
                    0 <= j < self.attributes@.len() && self.attributes@[j].0@ == key@
                        && self.attributes@[j].1 == v,
                None => forall|j: int|
                    0 <= j < self.attributes@.len() ==> (#[trigger] self.attributes@[j]).0@
                        != key@,
            }),
    {
        let mut i: usize = 0;
        while i < self.attributes.len()
            invariant
                i <= self.attributes@.len(),
                forall|j: int| 0 <= j < i ==> (#[trigger] self.attributes@[j]).0@ != key@,
            decreases self.attributes@.len() - i,
        {
            if self.attributes[i].0 == *key {
                return Some(self.attributes[i].1);
            }
            i += 1;
        }
        None
    }
}

/// Whether the slot holds a live cell with the given name.
pub open spec fn cell_slot_named(c: Option<Cell>, name: Seq<char>) -> bool {
    match c {
        Some(cell) => cell.name@ == name,
        None => false,
    }
}

/// The assembled IR of one component: slot arenas owning the cells and
/// the groups, and the control tree scheduling the groups.  Removing an
/// entry frees its slot; indices held elsewhere (port back-references,
/// assignment endpoints) then resolve to nothing instead of reviving it.
#[derive(Debug)]
pub struct Component {
    /// Name of the component.
    pub name: Id,
    /// The cells of this component, one per slot; a freed slot is `None`.
    pub cells: Vec<Option<Cell>>,
    /// The groups of this component, one per slot; a freed slot is `None`.
    pub groups: Vec<Option<Group>>,
    /// The control tree over this component's group names.
    pub control: Control,
}

impl Component {
    /// An empty component with the given name and control tree.
    pub fn new(name: Id, control: Control) -> (r: Component)
        ensures
            r.name == name,
            r.cells@.len() == 0,
            r.groups@.len() == 0,
            r.control == control,
    {
        Component { name, cells: Vec::new(), groups: Vec::new(), control }
    }

    /// Add a cell, returning the slot index that now identifies it.
    pub fn add_cell(&mut self, cell: Cell) -> (i: usize)
        ensures
            i == old(self).cells@.len(),
            final(self).cells@ == old(self).cells@.push(Some(cell)),
            final(self).groups == old(self).groups,
            final(self).name == old(self).name,
            final(self).control == old(self).control,
    {
        let i = self.cells.len();
        self.cells.push(Some(cell));
        i
    }

    /// Add a group, returning the slot index that now identifies it.
    pub fn add_group(&mut self, group: Group) -> (i: usize)
        ensures
            i == old(self).groups@.len(),
            final(self).groups@ == old(self).groups@.push(Some(group)),
            final(self).cells == old(self).cells,
            final(self).name == old(self).name,
            final(self).control == old(self).control,
    {
        let i = self.groups.len();
        self.groups.push(Some(group));
        i
    }

    /// Free the group in the slot, if the slot exists.  Back-references
    /// into the slot stay behind as plain indices; they resolve to
    /// nothing afterwards and never resurrect the group.
    pub fn remove_group(&mut self, id: usize)
        ensures
            final(self).groups@.len() == old(self).groups@.len(),
            (id < old(self).groups@.len() ==> final(self).groups@[id as int] is None),
            (forall|j: int|
                0 <= j < old(self).groups@.len() && j != id ==> final(self).groups@[j] == old(
                    self,
                ).groups@[j]),
            final(self).cells == old(self).cells,
            final(self).name == old(self).name,
            final(self).control == old(self).control,
    {
        if id < self.groups.len() {
            self.groups.set(id, None);
        }
    }

    /// Free the cell in the slot, if the slot exists.
    pub fn remove_cell(&mut self, id: usize)
        ensures
            final(self).cells@.len() == old(self).cells@.len(),
            (id < old(self).cells@.len() ==> final(self).cells@[id as int] is None),
            (forall|j: int|
                0 <= j < old(self).cells@.len() && j != id ==> final(self).cells@[j] == old(
                    self,
                ).cells@[j]),
            final(self).groups == old(self).groups,
            final(self).name == old(self).name,
            final(self).control == old(self).control,
    {
        if id < self.cells.len() {
            self.cells.set(id, None);
        }
    }

    /// Whether the slot index still resolves to a live group.
    pub fn has_group(&self, id: usize) -> (r: bool)
        ensures
            r == (id < self.groups@.len() && self.groups@[id as int] is Some),
    {
        id < self.groups.len() && self.groups[id].is_some()
    }

    /// Whether the slot index still resolves to a live cell.
    pub fn has_cell(&self, id: usize) -> (r: bool)
        ensures
            r == (id < self.cells@.len() && self.cells@[id as int] is Some),
    {
        id < self.cells.len() && self.cells[id].is_some()
    }

    /// Look up the first live cell with the given name.
    pub fn find_cell(&self, name: &Id) -> (r: Option<usize>)
        ensures
            (match r {
                Some(i) => i < self.cells@.len() && cell_slot_named(self.cells@[i as int], name@)
                    && (forall|j: int| 0 <= j < i ==> !cell_slot_named(self.cells@[j], name@)),
                None => forall|j: int|
                    0 <= j < self.cells@.len() ==> !cell_slot_named(#[trigger] self.cells@[j], name@),
            }),
    {
        let mut i: usize = 0;
        while i < self.cells.len()
            invariant
                i <= self.cells@.len(),
                forall|j: int| 0 <= j < i ==> !cell_slot_named(#[trigger] self.cells@[j], name@),
            decreases self.cells@.len() - i,
        {
            match &self.cells[i] {
                Some(cell) => {
                    if cell.name == *name {
                        return Some(i);
                    }
                },
                None => {},
            }
            i += 1;
        }
        None
    }
}

} // verus!
