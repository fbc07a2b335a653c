//! Surface abstract syntax tree.
//!
//! Plain, immutable, tree-shaped value types delivered by the external
//! parser: declared ports, structural statements (sub-component
//! declarations, primitive instantiations, point-to-point wires) and a
//! hierarchical control tree over group names.  Lowering consumes these to
//! build the IR graph.

use vstd::prelude::*;

verus! {

/// Identifiers in the surface language and the IR are plain strings.
pub type Id = String;

/// A parsed namespace: a named collection of component definitions.
#[derive(Debug)]
pub struct Namespace {
    pub name: String,
    pub components: Vec<Component>,
}

/// A surface-language component: an interface of input and output ports,
/// a list of structural statements, and one control tree.
#[derive(Debug)]
pub struct Component {
    pub name: String,
    pub inputs: Vec<Portdef>,
    pub outputs: Vec<Portdef>,
    pub structure: Vec<Structure>,
    pub control: Control,
}

/// A declared port on a component interface: a name and a bit width.
#[derive(Clone, Debug, PartialEq, Eq)]
pub struct Portdef {
    pub name: String,
    pub width: u64,
}

/// A reference to a port at the surface level: either a port on a named
/// sub-component instance, or a port on the enclosing component itself.
#[derive(Debug, Clone, PartialEq, Eq, Hash)]
pub enum Port {
    Comp { component: String, port: String },
    This { port: String },
}

/// An instantiation of a primitive: its name and integer parameters.
#[derive(Clone, Debug, PartialEq, Eq)]
pub struct Compinst {
    pub name: String,
    pub params: Vec<u64>,
}

/// Declares an instance of a user-defined sub-component.
#[derive(Clone, Debug, PartialEq, Eq)]
pub struct Decl {
    pub name: Id,
    pub component: String,
}

/// Declares an instance of a primitive with parameters.
#[derive(Clone, Debug, PartialEq, Eq)]
pub struct Std {
    pub name: Id,
    pub instance: Compinst,
}

/// An unconditional point-to-point connection.  Guards are not expressible
/// at this layer; the IR's guarded assignments resolve that limitation.
#[derive(Clone, Debug, PartialEq, Eq)]
pub struct Wire {
    pub src: Port,
    pub dest: Port,
}

/// One structural statement of a component body.
#[derive(Clone, Debug, PartialEq, Eq)]
pub enum Structure {
    Decl { data: Decl },
    Std { data: Std },
    Wire { data: Wire },
}

/// Ordered composition: children run one after another.
#[derive(Debug, PartialEq, Eq)]
pub struct Sequence {
    pub stmts: Vec<Control>,
}

/// Concurrent composition: children all start together.
#[derive(Debug, PartialEq, Eq)]
pub struct Par {
    pub stmts: Vec<Control>,
}

/// Branch on a condition port sampled combinationally.
#[derive(Debug, PartialEq, Eq)]
pub struct If {
    pub cond: Port,
    pub tbranch: Box<Control>,
    pub fbranch: Box<Control>,
}

/// Branch on a condition port, first enabling the activity that produces
/// the condition for one step.  The distinction from [`If`] matters to the
/// later FSM lowering and must be preserved verbatim by every traversal.
#[derive(Debug, PartialEq, Eq)]
pub struct Ifen {
    pub cond: Port,
    pub tbranch: Box<Control>,
    pub fbranch: Box<Control>,
}

/// Loop while a condition port holds, re-testing before every iteration.
#[derive(Debug, PartialEq, Eq)]
pub struct While {
    pub cond: Port,
    pub body: Box<Control>,
}

/// Debug aid; a no-op at the hardware level.
#[derive(Debug, Clone, PartialEq, Eq)]
pub struct Print {
    pub var: String,
}

/// Bulk activation of the named groups.
#[derive(Debug, Clone, PartialEq, Eq)]
pub struct Enable {
    pub comps: Vec<String>,
}

/// Bulk deactivation of the named groups.
#[derive(Debug, Clone, PartialEq, Eq)]
pub struct Disable {
    pub comps: Vec<String>,
}

/// Terminal no-op: always immediately done.  Used as a structurally
/// required placeholder, e.g. a missing else-branch.
#[derive(Debug, Clone, PartialEq, Eq)]
pub struct Empty {}

/// The control tree: when named groups run.  Boxes and vectors provide the
/// indirection the recursive structure needs.
#[derive(Debug, PartialEq, Eq)]
pub enum Control {
    Sequence { data: Sequence },
    Par { data: Par },
    If { data: If },
    Ifen { data: Ifen },
    While { data: While },
    Print { data: Print },
    Enable { data: Enable },
    Disable { data: Disable },
    Empty { data: Empty },
}

} // verus!
