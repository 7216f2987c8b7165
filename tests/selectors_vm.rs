use lol_html_core::matching::ElementStack;
use lol_html_core::payload::PayloadSet;
use lol_html_core::program::{
    Attribute, AttributeExpr, AttributeMatcher, ExecutionBranch, Instruction, LocalName,
    LocalNameExpr, Program, ProgramFlags, SelectorState, TryExecResult,
};

fn name(s: &str) -> LocalName {
    LocalName { bytes: s.as_bytes().to_vec() }
}

fn state() -> SelectorState {
    SelectorState { index: 1, type_index: 1 }
}

fn attrs(pairs: &[(&str, &str)]) -> AttributeMatcher {
    AttributeMatcher {
        attributes: pairs
            .iter()
            .map(|(n, v)| Attribute { name: n.as_bytes().to_vec(), value: v.as_bytes().to_vec() })
            .collect(),
    }
}

fn instruction(
    tag: &str,
    attribute_exprs: Vec<AttributeExpr>,
    payload: &[u32],
    jumps: Option<std::ops::Range<usize>>,
    hereditary_jumps: Option<std::ops::Range<usize>>,
) -> Instruction {
    Instruction {
        associated_branch: ExecutionBranch {
            matched_payload: PayloadSet::from_ids(payload),
            jumps,
            hereditary_jumps,
        },
        local_name_exprs: vec![LocalNameExpr::Is(tag.as_bytes().to_vec())],
        attribute_exprs,
    }
}

fn sorted(p: &PayloadSet) -> Vec<u32> {
    let mut v = p.to_vec();
    v.sort();
    v
}

#[test]
fn try_exec_branch_without_attribute_guards() {
    let ins = instruction("div", vec![], &[3], None, None);
    match ins.try_exec_without_attrs(&state(), &name("div")) {
        TryExecResult::Branch(b) => assert_eq!(sorted(&b.matched_payload), vec![3]),
        _ => panic!("expected a branch"),
    }
}

#[test]
fn try_exec_requires_attributes() {
    let ins = instruction("a", vec![AttributeExpr::Exists(b"href".to_vec())], &[1], None, None);
    assert!(matches!(
        ins.try_exec_without_attrs(&state(), &name("a")),
        TryExecResult::AttributesRequired
    ));
    assert!(ins.complete_exec_with_attrs(&state(), &attrs(&[("href", "x")])).is_some());
    assert!(ins.complete_exec_with_attrs(&state(), &attrs(&[("id", "x")])).is_none());
}

#[test]
fn try_exec_fails_on_name() {
    let ins = instruction("a", vec![AttributeExpr::Exists(b"href".to_vec())], &[1], None, None);
    assert!(matches!(ins.try_exec_without_attrs(&state(), &name("b")), TryExecResult::Fail));
    assert!(ins.exec(&state(), &name("b"), &attrs(&[("href", "x")])).is_none());
}

#[test]
fn two_phase_agrees_with_exec() {
    let ins = instruction(
        "input",
        vec![AttributeExpr::Equals(b"type".to_vec(), b"text".to_vec())],
        &[2],
        None,
        None,
    );
    for a in [attrs(&[("type", "text")]), attrs(&[("type", "radio")]), attrs(&[])] {
        assert!(matches!(
            ins.try_exec_without_attrs(&state(), &name("input")),
            TryExecResult::AttributesRequired
        ));
        let two = ins.complete_exec_with_attrs(&state(), &a).is_some();
        let one = ins.exec(&state(), &name("input"), &a).is_some();
        assert_eq!(two, one);
    }
}

#[test]
fn nth_of_type_predicate() {
    let ins = Instruction {
        associated_branch: ExecutionBranch { matched_payload: PayloadSet::new(), jumps: None, hereditary_jumps: None },
        local_name_exprs: vec![LocalNameExpr::Is(b"li".to_vec()), LocalNameExpr::NthOfType(2)],
        attribute_exprs: vec![],
    };
    let second = SelectorState { index: 3, type_index: 2 };
    assert!(ins.exec(&second, &name("li"), &attrs(&[])).is_some());
    assert!(ins.exec(&state(), &name("li"), &attrs(&[])).is_none());
}

#[test]
fn program_validity() {
    let good = Program {
        instructions: vec![instruction("div", vec![], &[], Some(1..2), None), instruction("p", vec![], &[1], None, None)],
        entry_points: 0..1,
        flags: ProgramFlags::empty(),
    };
    assert!(good.is_valid());
    let bad = Program {
        instructions: vec![instruction("div", vec![], &[], None, Some(1..3))],
        entry_points: 0..1,
        flags: ProgramFlags::empty(),
    };
    assert!(!bad.is_valid());
    let bad_entry = Program { instructions: vec![], entry_points: 0..1, flags: ProgramFlags::empty() };
    assert!(!bad_entry.is_valid());
}

#[test]
fn program_flags() {
    let p = Program { instructions: vec![], entry_points: 0..0, flags: ProgramFlags::nth_of_type() };
    assert!(p.needs_nth_of_type());
    assert!(!p.flags.is_empty());
    let q = Program { instructions: vec![], entry_points: 0..0, flags: ProgramFlags::empty() };
    assert!(!q.needs_nth_of_type());
    assert!(ProgramFlags::empty().union(&ProgramFlags::nth_of_type()).contains(&ProgramFlags::nth_of_type()));
}

#[test]
fn element_payload_is_union_of_matches() {
    // Two alternatives at the entry range both match "div"; a third does not.
    let program = Program {
        instructions: vec![
            instruction("div", vec![], &[1, 2], None, None),
            instruction("div", vec![], &[2, 3], None, None),
            instruction("span", vec![], &[9], None, None),
        ],
        entry_points: 0..3,
        flags: ProgramFlags::empty(),
    };
    let m = program.match_element(&vec![0..3], &state(), &name("div"), &attrs(&[]));
    assert_eq!(sorted(&m.payload), vec![1, 2, 3]);
    assert!(m.jumps.is_empty());
}

#[test]
fn child_jumps_only_reach_children() {
    // div > p
    let program = Program {
        instructions: vec![
            instruction("div", vec![], &[], Some(1..2), None),
            instruction("p", vec![], &[5], None, None),
        ],
        entry_points: 0..1,
        flags: ProgramFlags::empty(),
    };
    let mut stack = ElementStack::new();
    assert!(sorted(&stack.open_element(&program, &state(), &name("div"), &attrs(&[]))).is_empty());
    assert_eq!(sorted(&stack.open_element(&program, &state(), &name("p"), &attrs(&[]))), vec![5]);
    // a p nested in that p is not a child of the div
    assert!(sorted(&stack.open_element(&program, &state(), &name("p"), &attrs(&[]))).is_empty());
    assert_eq!(stack.depth(), 3);
}

#[test]
fn hereditary_jumps_reach_all_descendants_until_close() {
    // div span
    let program = Program {
        instructions: vec![
            instruction("div", vec![], &[], None, Some(1..2)),
            instruction("span", vec![], &[7], None, None),
        ],
        entry_points: 0..1,
        flags: ProgramFlags::empty(),
    };
    let mut stack = ElementStack::new();
    stack.open_element(&program, &state(), &name("div"), &attrs(&[]));
    stack.open_element(&program, &state(), &name("p"), &attrs(&[]));
    stack.open_element(&program, &state(), &name("em"), &attrs(&[]));
    assert_eq!(sorted(&stack.open_element(&program, &state(), &name("span"), &attrs(&[]))), vec![7]);
    stack.close_element();
    stack.close_element();
    stack.close_element();
    stack.close_element();
    assert_eq!(stack.depth(), 0);
    assert!(sorted(&stack.open_element(&program, &state(), &name("span"), &attrs(&[]))).is_empty());
}

#[test]
fn active_ranges_hold_entry_children_and_hereditary() {
    let program = Program {
        instructions: vec![
            instruction("div", vec![], &[], Some(1..2), Some(2..3)),
            instruction("p", vec![], &[], None, None),
            instruction("span", vec![], &[], None, None),
        ],
        entry_points: 0..1,
        flags: ProgramFlags::empty(),
    };
    let mut stack = ElementStack::new();
    assert_eq!(stack.active_ranges(&program.entry_points), vec![0..1]);
    stack.open_element(&program, &state(), &name("div"), &attrs(&[]));
    assert_eq!(stack.active_ranges(&program.entry_points), vec![0..1, 1..2, 2..3]);
}

#[test]
fn payload_set_operations() {
    let mut a = PayloadSet::new();
    assert!(a.insert(4));
    assert!(!a.insert(4));
    assert!(a.contains(4));
    assert!(!a.contains(5));
    let b = PayloadSet::from_ids(&[5, 6, 5]);
    a.extend_from(&b);
    assert_eq!(sorted(&a), vec![4, 5, 6]);
}
