use calyx::ast::Control;
use calyx::ast::Disable;
use calyx::ast::Empty;
use calyx::ast::Enable;
use calyx::ast::If;
use calyx::ast::Ifen;
use calyx::ast::Par;
use calyx::ast::Port;
use calyx::ast::Print;
use calyx::ast::Sequence;
use calyx::ast::While;
use calyx::schedule::clone_control;
use calyx::schedule::is_done;
use calyx::schedule::step;
use calyx::schedule::StepEnv;

fn enable(name: &str) -> Control {
    Control::Enable { data: Enable { comps: vec![name.to_string()] } }
}

fn empty() -> Control {
    Control::Empty { data: Empty {} }
}

fn seq(stmts: Vec<Control>) -> Control {
    Control::Sequence { data: Sequence { stmts } }
}

fn this_port(name: &str) -> Port {
    Port::This { port: name.to_string() }
}

fn quiet() -> StepEnv {
    StepEnv { finished: vec![], high: vec![] }
}

fn finishing(names: &[&str]) -> StepEnv {
    StepEnv { finished: names.iter().map(|n| n.to_string()).collect(), high: vec![] }
}

fn sampling_high(p: Port) -> StepEnv {
    StepEnv { finished: vec![], high: vec![p] }
}

#[test]
fn empty_sequence_is_immediately_done() {
    assert!(is_done(&seq(vec![])));
    assert!(is_done(&empty()));
}

#[test]
fn degenerate_program_with_no_groups_is_well_formed() {
    // `Empty` at top level denotes a component with no scheduled
    // behavior: done before any step, and stepping changes nothing.
    let residue = step(empty(), &quiet());
    assert_eq!(residue, empty());
    assert!(is_done(&residue));
}

#[test]
fn singleton_sequence_behaves_like_its_element() {
    // Seq[Enable[a]] and Enable[a] agree on doneness at every step of
    // the same run.
    let wrapped = seq(vec![enable("a")]);
    let bare = enable("a");
    assert_eq!(is_done(&wrapped), is_done(&bare));
    let wrapped1 = step(wrapped, &quiet());
    let bare1 = step(bare, &quiet());
    assert_eq!(is_done(&wrapped1), is_done(&bare1));
    let wrapped2 = step(wrapped1, &finishing(&["a"]));
    let bare2 = step(bare1, &finishing(&["a"]));
    assert!(is_done(&wrapped2));
    assert!(is_done(&bare2));
}

#[test]
fn sequence_runs_one_child_at_a_time() {
    let program = seq(vec![enable("first"), enable("second")]);
    // Both groups finish their done signals every cycle, but the
    // sequence consumes them strictly in order: two steps are needed.
    let env = finishing(&["first", "second"]);
    let after_one = step(program, &env);
    assert!(!is_done(&after_one));
    let after_two = step(after_one, &env);
    assert!(is_done(&after_two));
}

#[test]
fn par_joins_only_after_both_report_done() {
    let both = || Control::Par { data: Par { stmts: vec![enable("a"), enable("b")] } };
    // a finishes first, then b.
    let r1 = step(both(), &finishing(&["a"]));
    assert!(!is_done(&r1));
    let r1 = step(r1, &finishing(&["b"]));
    assert!(is_done(&r1));
    // b finishes first, then a: the join fires all the same.
    let r2 = step(both(), &finishing(&["b"]));
    assert!(!is_done(&r2));
    let r2 = step(r2, &finishing(&["a"]));
    assert!(is_done(&r2));
    // One side alone never completes the join.
    let mut r3 = step(both(), &finishing(&["a"]));
    r3 = step(r3, &finishing(&["a"]));
    r3 = step(r3, &finishing(&["a"]));
    assert!(!is_done(&r3));
}

#[test]
fn enable_waits_for_every_named_group() {
    let bulk = Control::Enable {
        data: Enable { comps: vec!["x".to_string(), "y".to_string()] },
    };
    let part = step(bulk, &finishing(&["x"]));
    assert!(!is_done(&part));
    let all = step(part, &finishing(&["x", "y"]));
    assert!(is_done(&all));
}

#[test]
fn while_with_low_condition_never_activates_body() {
    let loop_node = Control::While {
        data: While { cond: this_port("cond"), body: Box::new(enable("body")) },
    };
    // The condition samples low before the first iteration: the body is
    // never reached and the loop dissolves at once.
    let residue = step(loop_node, &quiet());
    assert_eq!(residue, empty());
    assert!(is_done(&residue));
}

#[test]
fn while_true_once_activates_body_exactly_once() {
    let body = || enable("body");
    let loop_node = || Control::While {
        data: While { cond: this_port("cond"), body: Box::new(body()) },
    };
    // First test: high.  One body copy unrolls in front of the loop.
    let r = step(loop_node(), &sampling_high(this_port("cond")));
    assert_eq!(r, seq(vec![body(), loop_node()]));
    // The body's group finishes; the unrolled copy is consumed.
    let r = step(r, &finishing(&["body"]));
    assert_eq!(r, seq(vec![empty(), loop_node()]));
    // Re-test: low.  The loop dissolves; the body never ran again.
    let r = step(r, &finishing(&["body"]));
    assert_eq!(r, seq(vec![empty(), empty()]));
    assert!(is_done(&r));
}

#[test]
fn if_runs_exactly_the_chosen_branch() {
    let branch = || If {
        cond: this_port("sel"),
        tbranch: Box::new(enable("then_side")),
        fbranch: Box::new(enable("else_side")),
    };
    let taken = step(Control::If { data: branch() }, &sampling_high(this_port("sel")));
    assert_eq!(taken, enable("then_side"));
    let not_taken = step(Control::If { data: branch() }, &quiet());
    assert_eq!(not_taken, enable("else_side"));
}

#[test]
fn ifen_preserves_its_own_node_kind_and_branches() {
    let node = Control::Ifen {
        data: Ifen {
            cond: this_port("sel"),
            tbranch: Box::new(enable("then_side")),
            fbranch: Box::new(enable("else_side")),
        },
    };
    assert!(matches!(node, Control::Ifen { .. }));
    let taken = step(node, &sampling_high(this_port("sel")));
    assert_eq!(taken, enable("then_side"));
}

#[test]
fn condition_ports_compare_by_full_path() {
    // A port on an instance and a like-named port on the component
    // itself are different condition ports.
    let comp_port = Port::Comp { component: "reg".to_string(), port: "out".to_string() };
    let loop_node = Control::While {
        data: While { cond: comp_port.clone(), body: Box::new(enable("body")) },
    };
    let residue = step(loop_node, &sampling_high(this_port("out")));
    assert_eq!(residue, empty());
}

#[test]
fn print_and_disable_are_single_step_actions() {
    let p = Control::Print { data: Print { var: "x".to_string() } };
    assert!(!is_done(&p));
    assert!(is_done(&step(p, &quiet())));
    let d = Control::Disable { data: Disable { comps: vec!["g".to_string()] } };
    assert!(!is_done(&d));
    assert!(is_done(&step(d, &quiet())));
}

#[test]
fn clone_control_reproduces_the_tree() {
    let program = seq(vec![
        Control::Par { data: Par { stmts: vec![enable("a"), enable("b")] } },
        Control::While {
            data: While { cond: this_port("cond"), body: Box::new(enable("body")) },
        },
        Control::Print { data: Print { var: "x".to_string() } },
    ]);
    let copy = clone_control(&program);
    assert_eq!(copy, program);
}

#[test]
fn nested_par_inside_sequence_schedules_correctly() {
    // Seq[ Par[Enable[a], Enable[b]], Enable[c] ]: the tail group must
    // not start until the join has fired.
    let program = seq(vec![
        Control::Par { data: Par { stmts: vec![enable("a"), enable("b")] } },
        enable("c"),
    ]);
    // c's done signal is up the whole time; the sequence must ignore it
    // until the parallel phase has joined.
    let r = step(program, &finishing(&["a", "c"]));
    assert!(!is_done(&r));
    let r = step(r, &finishing(&["b", "c"]));
    assert!(!is_done(&r));
    let r = step(r, &finishing(&["c"]));
    assert!(is_done(&r));
}

#[test]
fn singleton_sequence_identity_holds_for_loops_too() {
    let loop_node = || Control::While {
        data: While { cond: this_port("cond"), body: Box::new(enable("body")) },
    };
    let wrapped = seq(vec![loop_node()]);
    let high = sampling_high(this_port("cond"));
    let wrapped1 = step(wrapped, &high);
    let bare1 = step(loop_node(), &high);
    // The wrapped loop unrolls inside its wrapper, step for step.
    assert_eq!(wrapped1, seq(vec![bare1]));
}
