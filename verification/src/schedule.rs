//! Small-step semantics of the control tree.
//!
//! A control program runs against a sequence of *steps*.  During one step
//! the hardware environment reports which groups raised their done signal
//! and which condition ports sampled high; [`step`] rewrites the control
//! tree to the residual program that remains after that step.  A tree is
//! *done* when no residual work is left, and at any moment it holds a set
//! of group names *active*.  The spec-level mirror types ([`CtrlV`],
//! [`PortV`], [`EnvV`]) state these notions mathematically; the public
//! proof functions at the end state the composition laws of sequencing,
//! parallel join and looping.

use vstd::prelude::*;
use crate::ast::Control;
use crate::ast::Port;
use crate::ast::Empty;
use crate::ast::Sequence;
use crate::ast::Par;
use crate::ast::Ifen;
use crate::ast::While;
use crate::ast::Print;
use crate::ast::Enable;
use crate::ast::Disable;

verus! {

/// Spec-level picture of a surface port reference, with names as
/// character sequences.
pub enum PortV {
    Comp { component: Seq<char>, port: Seq<char> },
    This { port: Seq<char> },
}

/// Spec-level picture of a control tree.  It mirrors
/// [`Control`] shape for shape, with mathematical sequences for children
/// and names.
pub enum CtrlV {
    Sequence { stmts: Seq<CtrlV> },
    Par { stmts: Seq<CtrlV> },
    If { cond: PortV, tbranch: Box<CtrlV>, fbranch: Box<CtrlV> },
    Ifen { cond: PortV, tbranch: Box<CtrlV>, fbranch: Box<CtrlV> },
    While { cond: PortV, body: Box<CtrlV> },
    Print { var: Seq<char> },
    Enable { comps: Seq<Seq<char>> },
    Disable { comps: Seq<Seq<char>> },
    Empty,
}

/// What a port reference denotes, as a spec value.
pub open spec fn port_view(p: Port) -> PortV {
    match p {
        Port::Comp { component, port } => PortV::Comp { component: component@, port: port@ },
        Port::This { port } => PortV::This { port: port@ },
    }
}

/// The names in a list, as character sequences.
pub open spec fn names_view(names: Seq<String>) -> Seq<Seq<char>> {
    names.map_values(|s: String| s@)
}

/// What a control tree denotes, as a spec value.
pub open spec fn control_view(c: Control) -> CtrlV
    decreases c,
{
    match c {
        Control::Sequence { data } => CtrlV::Sequence { stmts: control_views(data.stmts@) },
        Control::Par { data } => CtrlV::Par { stmts: control_views(data.stmts@) },
        Control::If { data } => CtrlV::If {
            cond: port_view(data.cond),
            tbranch: Box::new(control_view(*data.tbranch)),
            fbranch: Box::new(control_view(*data.fbranch)),
        },
        Control::Ifen { data } => CtrlV::Ifen {
            cond: port_view(data.cond),
            tbranch: Box::new(control_view(*data.tbranch)),
            fbranch: Box::new(control_view(*data.fbranch)),
        },
        Control::While { data } => CtrlV::While {
            cond: port_view(data.cond),
            body: Box::new(control_view(*data.body)),
        },
        Control::Print { data } => CtrlV::Print { var: data.var@ },
        Control::Enable { data } => CtrlV::Enable { comps: names_view(data.comps@) },
        Control::Disable { data } => CtrlV::Disable { comps: names_view(data.comps@) },
        Control::Empty { data } => CtrlV::Empty,
    }
}

/// The views of a list of control trees.
pub open spec fn control_views(cs: Seq<Control>) -> Seq<CtrlV>
    decreases cs,
{
    if cs.len() == 0 {
        Seq::empty()
    } else {
        seq![control_view(cs[0])] + control_views(cs.subrange(1, cs.len() as int))
    }
}

/// `control_views` maps `control_view` over the list, element by element.
pub proof fn lemma_control_views(cs: Seq<Control>)
    ensures
        control_views(cs).len() == cs.len(),
        forall|i: int| 0 <= i < cs.len() ==> control_views(cs)[i] == control_view(#[trigger] cs[i]),
    decreases cs,
{
    if cs.len() > 0 {
        let rest = cs.subrange(1, cs.len() as int);
        lemma_control_views(rest);
        assert forall|i: int| 0 <= i < cs.len() implies control_views(cs)[i] == control_view(
            #[trigger] cs[i],
        ) by {
            if i > 0 {
                assert(rest[i - 1] == cs[i]);
            }
        }
    }
}

/// One step's observations: which groups raised done, which condition
/// ports sampled high.  Anything unlisted is low.
pub struct StepEnv {
    pub finished: Vec<String>,
    pub high: Vec<Port>,
}

/// Spec-level picture of one step's observations.
pub struct EnvV {
    pub finished: Seq<Seq<char>>,
    pub high: Seq<PortV>,
}

/// What a step environment denotes, as a spec value.
pub open spec fn env_view(env: StepEnv) -> EnvV {
    EnvV {
        finished: names_view(env.finished@),
        high: env.high@.map_values(|p: Port| port_view(p)),
    }
}

/// Whether the environment reports the named group as finished.
pub open spec fn group_finished(env: EnvV, name: Seq<char>) -> bool {
    env.finished.contains(name)
}

/// Whether the environment reports every named group as finished.
pub open spec fn all_finished(env: EnvV, names: Seq<Seq<char>>) -> bool {
    forall|i: int| 0 <= i < names.len() ==> group_finished(env, #[trigger] names[i])
}

/// Whether the environment samples the port high.
pub open spec fn port_high(env: EnvV, p: PortV) -> bool {
    env.high.contains(p)
}

/// A control tree is done when no residual work is left: `Empty` is done,
/// and a sequence or parallel composition is done exactly when all of its
/// children are.  Every other node still owes work.
pub open spec fn done_v(c: CtrlV) -> bool
    decreases c,
{
    match c {
        CtrlV::Sequence { stmts } => done_list(stmts),
        CtrlV::Par { stmts } => done_list(stmts),
        CtrlV::If { cond, tbranch, fbranch } => false,
        CtrlV::Ifen { cond, tbranch, fbranch } => false,
        CtrlV::While { cond, body } => false,
        CtrlV::Print { var } => false,
        CtrlV::Enable { comps } => false,
        CtrlV::Disable { comps } => false,
        CtrlV::Empty => true,
    }
}

/// Whether every tree in the list is done.
pub open spec fn done_list(stmts: Seq<CtrlV>) -> bool
    decreases stmts,
{
    forall|i: int| 0 <= i < stmts.len() ==> done_v(#[trigger] stmts[i])
}

/// The position of the first child a sequence still owes work on, or the
/// length of the list when none is left.
pub open spec fn first_active(stmts: Seq<CtrlV>) -> nat
    decreases stmts,
{
    if stmts.len() == 0 {
        0
    } else if !done_v(stmts[0]) {
        0
    } else {
        1 + first_active(stmts.subrange(1, stmts.len() as int))
    }
}

/// What one scheduling step leaves of a control tree.
///
/// - `Empty` stays; `Print` and `Disable` act and leave nothing.
/// - `Enable` completes once every named group has reported done.
/// - A sequence steps only its first unfinished child.
/// - A parallel composition steps all children together.
/// - `If`/`Ifen` sample the condition and leave exactly the chosen branch;
///   the other branch never starts.
/// - `While` re-tests its condition: high unrolls one body iteration in
///   front of the loop, low leaves nothing.
pub open spec fn step_v(c: CtrlV, env: EnvV) -> CtrlV
    decreases c,
{
    match c {
        CtrlV::Sequence { stmts } => {
            let k = first_active(stmts);
            if k < stmts.len() {
                CtrlV::Sequence { stmts: stmts.update(k as int, step_v(stmts[k as int], env)) }
            } else {
                CtrlV::Sequence { stmts }
            }
        },
        CtrlV::Par { stmts } => CtrlV::Par { stmts: step_list(stmts, env) },
        CtrlV::If { cond, tbranch, fbranch } => if port_high(env, cond) {
            *tbranch
        } else {
            *fbranch
        },
        CtrlV::Ifen { cond, tbranch, fbranch } => if port_high(env, cond) {
            *tbranch
        } else {
            *fbranch
        },
        CtrlV::While { cond, body } => if port_high(env, cond) {
            CtrlV::Sequence { stmts: seq![*body, CtrlV::While { cond, body }] }
        } else {
            CtrlV::Empty
        },
        CtrlV::Print { var } => CtrlV::Empty,
        CtrlV::Enable { comps } => if all_finished(env, comps) {
            CtrlV::Empty
        } else {
            CtrlV::Enable { comps }
        },
        CtrlV::Disable { comps } => CtrlV::Empty,
        CtrlV::Empty => CtrlV::Empty,
    }
}

/// One step applied to every tree in a list.
pub open spec fn step_list(stmts: Seq<CtrlV>, env: EnvV) -> Seq<CtrlV>
    decreases stmts,
{
    if stmts.len() == 0 {
        Seq::empty()
    } else {
        seq![step_v(stmts[0], env)] + step_list(stmts.subrange(1, stmts.len() as int), env)
    }
}

/// `step_list` steps each element of the list independently of the rest.
pub proof fn lemma_step_list(stmts: Seq<CtrlV>, env: EnvV)
    ensures
        step_list(stmts, env).len() == stmts.len(),
        forall|i: int| 0 <= i < stmts.len() ==> step_list(stmts, env)[i] == step_v(
            #[trigger] stmts[i],
            env,
        ),
    decreases stmts,
{
    if stmts.len() > 0 {
        let rest = stmts.subrange(1, stmts.len() as int);
        lemma_step_list(rest, env);
        assert forall|i: int| 0 <= i < stmts.len() implies step_list(stmts, env)[i] == step_v(
            #[trigger] stmts[i],
            env,
        ) by {
            if i > 0 {
                assert(rest[i - 1] == stmts[i]);
            }
        }
    }
}

/// The group names a control tree holds active: the names of an `Enable`
/// that has not completed, the active set of a sequence's first unfinished
/// child, and the union of a parallel composition's children.
pub open spec fn active_v(c: CtrlV) -> Set<Seq<char>>
    decreases c,
{
    match c {
        CtrlV::Sequence { stmts } => {
            let k = first_active(stmts);
            if k < stmts.len() {
                active_v(stmts[k as int])
            } else {
                Set::empty()
            }
        },
        CtrlV::Par { stmts } => active_list(stmts),
        CtrlV::If { cond, tbranch, fbranch } => Set::empty(),
        CtrlV::Ifen { cond, tbranch, fbranch } => Set::empty(),
        CtrlV::While { cond, body } => Set::empty(),
        CtrlV::Print { var } => Set::empty(),
        CtrlV::Enable { comps } => comps.to_set(),
        CtrlV::Disable { comps } => Set::empty(),
        CtrlV::Empty => Set::empty(),
    }
}

/// The union of the active sets of a list of control trees.
pub open spec fn active_list(stmts: Seq<CtrlV>) -> Set<Seq<char>>
    decreases stmts,
{
    if stmts.len() == 0 {
        Set::empty()
    } else {
        active_v(stmts[0]).union(active_list(stmts.subrange(1, stmts.len() as int)))
    }
}

/// The residue of a control tree after a whole sequence of steps.
pub open spec fn run_v(c: CtrlV, envs: Seq<EnvV>) -> CtrlV
    decreases envs.len(),
{
    if envs.len() == 0 {
        c
    } else {
        run_v(step_v(c, envs[0]), envs.subrange(1, envs.len() as int))
    }
}

/// A position with a done prefix and unfinished occupant (or the length,
/// when everything is done) is exactly `first_active`.
pub proof fn lemma_first_active_unique(stmts: Seq<CtrlV>, k: nat)
    requires
        k <= stmts.len(),
        forall|j: int| 0 <= j < k ==> done_v(#[trigger] stmts[j]),
        k < stmts.len() ==> !done_v(stmts[k as int]),
    ensures
        first_active(stmts) == k,
    decreases stmts,
{
    if stmts.len() > 0 && k > 0 {
        let rest = stmts.subrange(1, stmts.len() as int);
        assert forall|j: int| 0 <= j < k - 1 implies done_v(#[trigger] rest[j]) by {
            assert(rest[j] == stmts[j + 1]);
        }
        if k < stmts.len() {
            assert(rest[k - 1] == stmts[k as int]);
        }
        lemma_first_active_unique(rest, (k - 1) as nat);
    }
}


/// Whether the control tree is done: no residual work is left.
pub fn is_done(c: &Control) -> (r: bool)
    ensures
        r == done_v(control_view(*c)),
    decreases c,
{
    match c {
        Control::Sequence { data } => all_done(&data.stmts),
        Control::Par { data } => all_done(&data.stmts),
        Control::If { data } => false,
        Control::Ifen { data } => false,
        Control::While { data } => false,
        Control::Print { data } => false,
        Control::Enable { data } => false,
        Control::Disable { data } => false,
        Control::Empty { data } => true,
    }
}

/// Whether every tree in the list is done.
fn all_done(cs: &Vec<Control>) -> (r: bool)
    ensures
        r == done_list(control_views(cs@)),
    decreases cs@,
{
    proof {
        lemma_control_views(cs@);
    }
    let mut i: usize = 0;
    while i < cs.len()
        invariant
            i <= cs@.len(),
            control_views(cs@).len() == cs@.len(),
            forall|j: int| 0 <= j < i ==> done_v(#[trigger] control_views(cs@)[j]),
            forall|j: int| 0 <= j < cs@.len() ==> control_views(cs@)[j] == control_view(
                #[trigger] cs@[j],
            ),
        decreases cs@.len() - i,
    {
        if !is_done(&cs[i]) {
            return false;
        }
        i += 1;
    }
    true
}

/// A copy of a port reference denoting the same port.
pub fn clone_port(p: &Port) -> (r: Port)
    ensures
        port_view(r) == port_view(*p),
{
    match p {
        Port::Comp { component, port } => Port::Comp {
            component: component.clone(),
            port: port.clone(),
        },
        Port::This { port } => Port::This { port: port.clone() },
    }
}

/// A copy of a name list denoting the same names.
pub fn clone_names(names: &Vec<String>) -> (r: Vec<String>)
    ensures
        names_view(r@) == names_view(names@),
{
    let mut out: Vec<String> = Vec::new();
    let mut i: usize = 0;
    while i < names.len()
        invariant
            i <= names@.len(),
            out@.len() == i,
            forall|j: int| 0 <= j < i ==> out@[j]@ == names@[j]@,
        decreases names@.len() - i,
    {
        out.push(names[i].clone());
        i += 1;
    }
    proof {
        assert(names_view(out@) =~= names_view(names@));
    }
    out
}

/// A copy of a control tree denoting the same program.
pub fn clone_control(c: &Control) -> (r: Control)
    ensures
        control_view(r) == control_view(*c),
    decreases c,
{
    match c {
        Control::Sequence { data } => Control::Sequence {
            data: Sequence { stmts: clone_controls(&data.stmts) },
        },
        Control::Par { data } => Control::Par { data: Par { stmts: clone_controls(&data.stmts) } },
        Control::If { data } => Control::If {
            data: crate::ast::If {
                cond: clone_port(&data.cond),
                tbranch: Box::new(clone_control(&data.tbranch)),
                fbranch: Box::new(clone_control(&data.fbranch)),
            },
        },
        Control::Ifen { data } => Control::Ifen {
            data: Ifen {
                cond: clone_port(&data.cond),
                tbranch: Box::new(clone_control(&data.tbranch)),
                fbranch: Box::new(clone_control(&data.fbranch)),
            },
        },
        Control::While { data } => Control::While {
            data: While { cond: clone_port(&data.cond), body: Box::new(clone_control(&data.body)) },
        },
        Control::Print { data } => Control::Print { data: Print { var: data.var.clone() } },
        Control::Enable { data } => Control::Enable {
            data: Enable { comps: clone_names(&data.comps) },
        },
        Control::Disable { data } => Control::Disable {
            data: Disable { comps: clone_names(&data.comps) },
        },
        Control::Empty { data } => Control::Empty { data: Empty {} },
    }
}

/// A copy of a list of control trees denoting the same programs.
fn clone_controls(cs: &Vec<Control>) -> (r: Vec<Control>)
    ensures
        control_views(r@) == control_views(cs@),
    decreases cs@,
{
    let mut out: Vec<Control> = Vec::new();
    let mut i: usize = 0;
    while i < cs.len()
        invariant
            i <= cs@.len(),
            out@.len() == i,
            forall|j: int| 0 <= j < i ==> control_view(#[trigger] out@[j]) == control_view(cs@[j]),
        decreases cs@.len() - i,
    {
        out.push(clone_control(&cs[i]));
        i += 1;
    }
    proof {
        lemma_control_views(out@);
        lemma_control_views(cs@);
        assert forall|j: int| 0 <= j < cs@.len() implies control_views(out@)[j] == control_views(
            cs@,
        )[j] by {
            assert(control_views(out@)[j] == control_view(out@[j]));
            assert(control_views(cs@)[j] == control_view(cs@[j]));
        }
        assert(control_views(out@) =~= control_views(cs@));
    }
    out
}

/// Whether the list holds a name with this spelling.
fn name_in(names: &Vec<String>, name: &String) -> (r: bool)
    ensures
        r == names_view(names@).contains(name@),
{
    let mut i: usize = 0;
    while i < names.len()
        invariant
            i <= names@.len(),
            forall|j: int| 0 <= j < i ==> names@[j]@ != name@,
        decreases names@.len() - i,
    {
        if names[i] == *name {
            assert(names_view(names@)[i as int] == name@);
            return true;
        }
        i += 1;
    }
    assert forall|j: int| 0 <= j < names_view(names@).len() implies names_view(names@)[j]
        != name@ by {}
    false
}

/// Whether the environment reports every group in the list as finished.
fn all_finished_in(env: &StepEnv, comps: &Vec<String>) -> (r: bool)
    ensures
        r == all_finished(env_view(*env), names_view(comps@)),
{
    let mut i: usize = 0;
    while i < comps.len()
        invariant
            i <= comps@.len(),
            forall|j: int| 0 <= j < i ==> group_finished(env_view(*env), names_view(comps@)[j]),
        decreases comps@.len() - i,
    {
        if !name_in(&env.finished, &comps[i]) {
            assert(names_view(comps@)[i as int] == comps@[i as int]@);
            return false;
        }
        i += 1;
    }
    true
}

/// Whether the two references denote the same port.
fn port_eq(a: &Port, b: &Port) -> (r: bool)
    ensures
        r == (port_view(*a) == port_view(*b)),
{
    match (a, b) {
        (Port::Comp { component, port }, Port::Comp { component: component_b, port: port_b }) => {
            *component == *component_b && *port == *port_b
        },
        (Port::This { port }, Port::This { port: port_b }) => *port == *port_b,
        (Port::Comp { component, port }, Port::This { port: port_b }) => false,
        (Port::This { port }, Port::Comp { component, port: port_b }) => false,
    }
}

/// Whether the environment samples the port high.
fn port_sampled_high(env: &StepEnv, p: &Port) -> (r: bool)
    ensures
        r == port_high(env_view(*env), port_view(*p)),
{
    let mut i: usize = 0;
    while i < env.high.len()
        invariant
            i <= env.high@.len(),
            forall|j: int| 0 <= j < i ==> port_view(env.high@[j]) != port_view(*p),
        decreases env.high@.len() - i,
    {
        if port_eq(&env.high[i], p) {
            assert(env_view(*env).high[i as int] == port_view(*p));
            return true;
        }
        i += 1;
    }
    assert forall|j: int| 0 <= j < env_view(*env).high.len() implies env_view(*env).high[j]
        != port_view(*p) by {}
    false
}

/// The position of the first child of the list that still owes work.
fn first_active_idx(cs: &Vec<Control>) -> (k: usize)
    ensures
        k as nat == first_active(control_views(cs@)),
        k <= cs@.len(),
{
    proof {
        lemma_control_views(cs@);
    }
    let ghost vs = control_views(cs@);
    let mut k: usize = 0;
    while k < cs.len()
        invariant
            k <= cs@.len(),
            vs == control_views(cs@),
            vs.len() == cs@.len(),
            forall|j: int| 0 <= j < cs@.len() ==> vs[j] == control_view(#[trigger] cs@[j]),
            forall|j: int| 0 <= j < k ==> done_v(#[trigger] vs[j]),
        decreases cs@.len() - k,
    {
        if !is_done(&cs[k]) {
            proof {
                lemma_first_active_unique(vs, k as nat);
            }
            return k;
        }
        k += 1;
    }
    proof {
        lemma_first_active_unique(vs, k as nat);
    }
    k
}

/// The list with the tree at the given position replaced by its stepped
/// residue.
fn step_at(cs: Vec<Control>, k: usize, env: &StepEnv) -> (r: Vec<Control>)
    requires
        k < cs@.len(),
    ensures
        control_views(r@) == control_views(cs@).update(
            k as int,
            step_v(control_views(cs@)[k as int], env_view(*env)),
        ),
    decreases cs@,
{
    let ghost gs0 = cs@;
    let ghost vs0 = control_views(gs0);
    proof {
        lemma_control_views(gs0);
    }
    let mut cs = cs;
    let x = cs.remove(k);
    proof {
        assert(x == gs0[k as int]);
    }
    let y = step(x, env);
    cs.insert(k, y);
    proof {
        assert(cs@ =~= gs0.update(k as int, y));
        lemma_control_views(cs@);
        assert forall|j: int| 0 <= j < gs0.len() implies control_views(cs@)[j] == vs0.update(
            k as int,
            step_v(vs0[k as int], env_view(*env)),
        )[j] by {
            if j == k {
                assert(cs@[j] == y);
                assert(control_views(cs@)[j] == control_view(y));
            } else {
                assert(cs@[j] == gs0[j]);
                assert(control_views(cs@)[j] == control_view(gs0[j]));
                assert(vs0[j] == control_view(gs0[j]));
            }
        }
        assert(control_views(cs@) =~= vs0.update(
            k as int,
            step_v(vs0[k as int], env_view(*env)),
        ));
    }
    cs
}

/// Every tree in the list stepped once, each independently of the rest.
fn step_each(cs: Vec<Control>, env: &StepEnv) -> (r: Vec<Control>)
    ensures
        control_views(r@) == step_list(control_views(cs@), env_view(*env)),
    decreases cs@,
{
    let ghost gs0 = cs@;
    let mut cs = cs;
    if cs.len() == 0 {
        proof {
            assert(control_views(gs0) =~= Seq::<CtrlV>::empty());
            assert(step_list(control_views(gs0), env_view(*env)) =~= Seq::<CtrlV>::empty());
        }
        cs
    } else {
        let x = cs.remove(0);
        proof {
            assert(x == gs0[0]);
            assert(cs@ =~= gs0.subrange(1, gs0.len() as int));
        }
        let y = step(x, env);
        let rest = step_each(cs, env);
        let ghost restv = rest@;
        let mut out = rest;
        out.insert(0, y);
        proof {
            let envv = env_view(*env);
            let tail = gs0.subrange(1, gs0.len() as int);
            let tailv = control_views(tail);
            lemma_control_views(out@);
            lemma_control_views(restv);
            lemma_control_views(gs0);
            lemma_control_views(tail);
            lemma_step_list(tailv, envv);
            lemma_step_list(control_views(gs0), envv);
            assert forall|i: int| 0 <= i < tail.len() implies control_views(gs0)[i + 1] == tailv[i] by {
                assert(tail[i] == gs0[i + 1]);
            }
            assert(control_views(restv) == step_list(tailv, envv));
            assert forall|j: int| 0 <= j < gs0.len() implies control_views(out@)[j] == step_list(
                control_views(gs0),
                envv,
            )[j] by {
                assert(control_views(gs0).subrange(1, control_views(gs0).len() as int) =~= tailv);
                assert(control_views(gs0)[0] == control_view(gs0[0]));
                if j == 0 {
                    assert(out@[0] == y);
                    assert(control_views(out@)[0] == control_view(y));
                } else {
                    assert(out@[j] == restv[j - 1]);
                    assert(control_views(out@)[j] == control_view(out@[j]));
                    assert(control_views(restv)[j - 1] == control_view(restv[j - 1]));
                    assert(step_list(control_views(gs0), envv)[j] == step_list(tailv, envv)[j - 1]);
                }
            }
            assert(control_views(out@) =~= step_list(control_views(gs0), envv));
        }
        out
    }
}

/// One scheduling step: rewrite the control tree to the residual program
/// left once the environment's observations are applied.
pub fn step(c: Control, env: &StepEnv) -> (r: Control)
    ensures
        control_view(r) == step_v(control_view(c), env_view(*env)),
    decreases c,
{
    match c {
        Control::Sequence { data } => {
            proof {
                lemma_control_views(data.stmts@);
            }
            let k = first_active_idx(&data.stmts);
            if k < data.stmts.len() {
                let stmts = step_at(data.stmts, k, env);
                Control::Sequence { data: Sequence { stmts } }
            } else {
                Control::Sequence { data: Sequence { stmts: data.stmts } }
            }
        },
        Control::Par { data } => {
            let stmts = step_each(data.stmts, env);
            Control::Par { data: Par { stmts } }
        },
        Control::If { data } => {
            if port_sampled_high(env, &data.cond) {
                *data.tbranch
            } else {
                *data.fbranch
            }
        },
        Control::Ifen { data } => {
            if port_sampled_high(env, &data.cond) {
                *data.tbranch
            } else {
                *data.fbranch
            }
        },
        Control::While { data } => {
            if port_sampled_high(env, &data.cond) {
                let ghost d0 = data;
                let unrolled = clone_control(&data.body);
                let ghost u0 = unrolled;
                let mut stmts: Vec<Control> = Vec::new();
                stmts.push(unrolled);
                stmts.push(Control::While { data });
                proof {
                    lemma_control_views(stmts@);
                    assert(stmts@.len() == 2);
                    assert(stmts@[0] == u0);
                    assert(stmts@[1] == Control::While { data: d0 });
                    assert(control_views(stmts@)[0] == control_view(u0));
                    assert(control_views(stmts@)[1] == control_view(Control::While { data: d0 }));
                    assert(control_view(u0) == control_view(*d0.body));
                    assert(control_views(stmts@) =~= seq![
                        control_view(*d0.body),
                        CtrlV::While {
                            cond: port_view(d0.cond),
                            body: Box::new(control_view(*d0.body)),
                        },
                    ]);
                }
                Control::Sequence { data: Sequence { stmts } }
            } else {
                Control::Empty { data: Empty {} }
            }
        },
        Control::Print { data } => Control::Empty { data: Empty {} },
        Control::Enable { data } => {
            if all_finished_in(env, &data.comps) {
                Control::Empty { data: Empty {} }
            } else {
                Control::Enable { data }
            }
        },
        Control::Disable { data } => Control::Empty { data: Empty {} },
        Control::Empty { data } => Control::Empty { data },
    }
}


/// A sequence node over the given children.
pub open spec fn seq_of(stmts: Seq<CtrlV>) -> CtrlV {
    CtrlV::Sequence { stmts }
}

/// A parallel node over the given children.
pub open spec fn par_of(stmts: Seq<CtrlV>) -> CtrlV {
    CtrlV::Par { stmts }
}

/// A loop node over the given condition and body.
pub open spec fn while_of(cond: PortV, body: CtrlV) -> CtrlV {
    CtrlV::While { cond, body: Box::new(body) }
}

/// An environment that observed nothing: no done signal, no high port.
pub open spec fn quiet_env() -> EnvV {
    EnvV { finished: Seq::empty(), high: Seq::empty() }
}

/// A done tree is a fixpoint of stepping: once a control tree has
/// finished, no further observation changes it.
pub proof fn lemma_done_step_fixpoint(c: CtrlV, env: EnvV)
    requires
        done_v(c),
    ensures
        step_v(c, env) == c,
    decreases c,
{
    match c {
        CtrlV::Sequence { stmts } => {
            lemma_first_active_unique(stmts, stmts.len());
        },
        CtrlV::Par { stmts } => {
            lemma_step_list_done(stmts, env);
        },
        CtrlV::If { cond, tbranch, fbranch } => {},
        CtrlV::Ifen { cond, tbranch, fbranch } => {},
        CtrlV::While { cond, body } => {},
        CtrlV::Print { var } => {},
        CtrlV::Enable { comps } => {},
        CtrlV::Disable { comps } => {},
        CtrlV::Empty => {},
    }
}

/// A list of done trees is a fixpoint of list stepping.
pub proof fn lemma_step_list_done(stmts: Seq<CtrlV>, env: EnvV)
    requires
        done_list(stmts),
    ensures
        step_list(stmts, env) == stmts,
    decreases stmts,
{
    if stmts.len() > 0 {
        let rest = stmts.subrange(1, stmts.len() as int);
        assert(done_v(stmts[0]));
        lemma_done_step_fixpoint(stmts[0], env);
        assert forall|j: int| 0 <= j < rest.len() implies done_v(#[trigger] rest[j]) by {
            assert(rest[j] == stmts[j + 1]);
        }
        lemma_step_list_done(rest, env);
        assert(step_list(stmts, env) =~= stmts);
    } else {
        assert(step_list(stmts, env) =~= stmts);
    }
}

/// A done tree stays itself under any whole run of steps.
pub proof fn lemma_done_run_fixpoint(c: CtrlV, envs: Seq<EnvV>)
    requires
        done_v(c),
    ensures
        run_v(c, envs) == c,
    decreases envs.len(),
{
    if envs.len() > 0 {
        lemma_done_step_fixpoint(c, envs[0]);
        lemma_done_run_fixpoint(c, envs.subrange(1, envs.len() as int));
    }
}

/// A done tree holds no group active.
pub proof fn lemma_done_inactive(c: CtrlV)
    requires
        done_v(c),
    ensures
        active_v(c) == Set::<Seq<char>>::empty(),
    decreases c,
{
    match c {
        CtrlV::Sequence { stmts } => {
            lemma_first_active_unique(stmts, stmts.len());
        },
        CtrlV::Par { stmts } => {
            lemma_active_list_done(stmts);
        },
        CtrlV::If { cond, tbranch, fbranch } => {},
        CtrlV::Ifen { cond, tbranch, fbranch } => {},
        CtrlV::While { cond, body } => {},
        CtrlV::Print { var } => {},
        CtrlV::Enable { comps } => {},
        CtrlV::Disable { comps } => {},
        CtrlV::Empty => {},
    }
}

/// A list of done trees holds no group active.
pub proof fn lemma_active_list_done(stmts: Seq<CtrlV>)
    requires
        done_list(stmts),
    ensures
        active_list(stmts) == Set::<Seq<char>>::empty(),
    decreases stmts,
{
    if stmts.len() > 0 {
        let rest = stmts.subrange(1, stmts.len() as int);
        assert(done_v(stmts[0]));
        lemma_done_inactive(stmts[0]);
        assert forall|j: int| 0 <= j < rest.len() implies done_v(#[trigger] rest[j]) by {
            assert(rest[j] == stmts[j + 1]);
        }
        lemma_active_list_done(rest);
        assert(active_list(stmts) =~= Set::<Seq<char>>::empty());
    }
}

/// The empty sequence is immediately done, holds nothing active, and
/// stepping leaves it alone.
pub proof fn lemma_empty_sequence_done(env: EnvV)
    ensures
        done_v(seq_of(Seq::empty())),
        active_v(seq_of(Seq::empty())) == Set::<Seq<char>>::empty(),
        step_v(seq_of(Seq::empty()), env) == seq_of(Seq::empty()),
{
    let c = CtrlV::Sequence { stmts: Seq::<CtrlV>::empty() };
    assert(done_v(c));
    lemma_done_inactive(c);
    lemma_done_step_fixpoint(c, env);
}

/// Wrapping a tree as a one-element sequence changes nothing observable:
/// doneness, the active set, and the residue of a step all coincide with
/// the bare tree's.
pub proof fn lemma_sequence_singleton(c: CtrlV, env: EnvV)
    ensures
        done_v(seq_of(seq![c])) == done_v(c),
        active_v(seq_of(seq![c])) == active_v(c),
        step_v(seq_of(seq![c]), env) == seq_of(seq![step_v(c, env)]),
{
    let s = seq![c];
    assert(s[0] == c);
    if done_v(c) {
        assert forall|i: int| 0 <= i < s.len() implies done_v(#[trigger] s[i]) by {
            assert(s[i] == c);
        }
        assert(done_list(s));
        lemma_first_active_unique(s, 1);
        lemma_done_step_fixpoint(c, env);
        assert(seq![step_v(c, env)] =~= s);
        lemma_done_inactive(c);
    } else {
        assert(!done_list(s));
        lemma_first_active_unique(s, 0);
        assert(s.update(0, step_v(c, env)) =~= seq![step_v(c, env)]);
    }
}

/// The one-element-sequence identity holds over whole runs: the wrapped
/// tree runs exactly as the bare tree does, and afterwards reports the
/// same doneness and the same active set.
pub proof fn lemma_sequence_singleton_run(c: CtrlV, envs: Seq<EnvV>)
    ensures
        run_v(seq_of(seq![c]), envs) == seq_of(seq![run_v(c, envs)]),
        done_v(run_v(seq_of(seq![c]), envs)) == done_v(run_v(c, envs)),
        active_v(run_v(seq_of(seq![c]), envs)) == active_v(run_v(c, envs)),
    decreases envs.len(),
{
    if envs.len() == 0 {
        lemma_sequence_singleton(c, quiet_env());
    } else {
        lemma_sequence_singleton(c, envs[0]);
        lemma_sequence_singleton_run(step_v(c, envs[0]), envs.subrange(1, envs.len() as int));
    }
    lemma_sequence_singleton(run_v(c, envs), quiet_env());
}

/// Parallel composition is a join: the two sides run independently,
/// whatever the interleaving of completion events, and the composition is
/// done after a run exactly when each side on its own is done after that
/// same run.
pub proof fn lemma_par_pair_run(a: CtrlV, b: CtrlV, envs: Seq<EnvV>)
    ensures
        run_v(par_of(seq![a, b]), envs) == par_of(seq![run_v(a, envs), run_v(b, envs)]),
        done_v(run_v(par_of(seq![a, b]), envs)) <==> (done_v(run_v(a, envs))
            && done_v(run_v(b, envs))),
    decreases envs.len(),
{
    let s = seq![a, b];
    assert(s[0] == a);
    assert(s[1] == b);
    if envs.len() == 0 {
        let ra = run_v(a, envs);
        let rb = run_v(b, envs);
        if done_v(ra) && done_v(rb) {
            assert forall|i: int| 0 <= i < s.len() implies done_v(#[trigger] s[i]) by {
                if i == 0 {
                    assert(s[i] == a);
                } else {
                    assert(s[i] == b);
                }
            }
        }
        if done_list(s) {
            assert(done_v(s[0]));
            assert(done_v(s[1]));
        }
    } else {
        let e0 = envs[0];
        let rest = envs.subrange(1, envs.len() as int);
        lemma_step_list(s, e0);
        assert(step_list(s, e0)[0] == step_v(s[0], e0));
        assert(step_list(s, e0)[1] == step_v(s[1], e0));
        assert(step_list(s, e0) =~= seq![step_v(a, e0), step_v(b, e0)]);
        lemma_par_pair_run(step_v(a, e0), step_v(b, e0), rest);
    }
}

/// A loop whose condition samples low leaves nothing behind: it was
/// holding nothing active, the step dissolves it, and no later step of
/// the run revives it or activates its body.
pub proof fn lemma_while_zero_iterations(cond: PortV, body: CtrlV, env: EnvV, envs: Seq<EnvV>)
    requires
        !port_high(env, cond),
    ensures
        active_v(while_of(cond, body)) == Set::<Seq<char>>::empty(),
        step_v(while_of(cond, body), env) == CtrlV::Empty,
        run_v(while_of(cond, body), seq![env] + envs) == CtrlV::Empty,
        active_v(CtrlV::Empty) == Set::<Seq<char>>::empty(),
{
    let w = while_of(cond, body);
    let all = seq![env] + envs;
    assert(all[0] == env);
    assert(all.subrange(1, all.len() as int) =~= envs);
    lemma_done_run_fixpoint(CtrlV::Empty, envs);
}

/// A loop whose condition samples high unrolls exactly one body copy in
/// front of the re-testing loop; the body itself was not yet active
/// before the sample.
pub proof fn lemma_while_unroll(cond: PortV, body: CtrlV, env: EnvV)
    requires
        port_high(env, cond),
    ensures
        active_v(while_of(cond, body)) == Set::<Seq<char>>::empty(),
        step_v(while_of(cond, body), env) == seq_of(seq![body, while_of(cond, body)]),
{
}

} // verus!
