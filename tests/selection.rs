use selector::engine::{Activation, Phase, Step};
use selector::mask::{mask_width, Mask, MAX_BRANCHES};
use selector::model::{CaseDesc, Select, SelectError};

fn single(guard: bool) -> CaseDesc {
    CaseDesc::Branch { guards: vec![guard], bound: true, arms: 0 }
}

fn block(arms: usize) -> CaseDesc {
    CaseDesc::Branch { guards: vec![false], bound: false, arms }
}

fn built(cases: Vec<CaseDesc>, biased: bool) -> Select {
    match Select::build(&cases, biased) {
        Ok(s) => s,
        Err(e) => panic!("unexpected error {:?}", e),
    }
}

#[test]
fn build_flattens_operations_in_order() {
    let cases = vec![
        CaseDesc::Branch { guards: vec![false, true], bound: true, arms: 0 },
        CaseDesc::Default,
        CaseDesc::Branch { guards: vec![true], bound: false, arms: 2 },
    ];
    let sel = built(cases, false);
    assert_eq!(sel.fut_count(), 3);
    assert_eq!(sel.case_count(), 4);
    assert!(sel.has_default);
    assert!(sel.random);
    assert_eq!(sel.branches[0].case_ix, 0);
    assert_eq!(sel.branches[1].case_ix, 0);
    assert!(sel.branches[1].guarded);
    assert_eq!(sel.branches[2].case_ix, 2);
    assert_eq!(sel.branches[2].arms, 2);
    assert_eq!(sel.mask_width(), 8);
}

#[test]
fn build_rejects_second_default() {
    let cases = vec![CaseDesc::Default, single(false), CaseDesc::Default];
    assert_eq!(Select::build(&cases, false).err(), Some(SelectError::DuplicateDefault));
}

#[test]
fn build_rejects_bound_pattern_with_arm_block() {
    let cases = vec![single(false), CaseDesc::Branch { guards: vec![false], bound: true, arms: 2 }];
    assert_eq!(Select::build(&cases, true).err(), Some(SelectError::ConflictingArmForms));
}

#[test]
fn build_reports_first_case_error() {
    let cases = vec![
        CaseDesc::Default,
        CaseDesc::Branch { guards: vec![false], bound: true, arms: 1 },
        CaseDesc::Default,
    ];
    assert_eq!(Select::build(&cases, true).err(), Some(SelectError::ConflictingArmForms));
}

#[test]
fn build_caps_branch_count() {
    let ok = vec![CaseDesc::Branch { guards: vec![false; 64], bound: false, arms: 0 }];
    let sel = built(ok, true);
    assert_eq!(sel.fut_count(), MAX_BRANCHES);
    assert_eq!(sel.mask_width(), 64);
    let over = vec![
        CaseDesc::Branch { guards: vec![false; 60], bound: false, arms: 0 },
        CaseDesc::Branch { guards: vec![false; 5], bound: false, arms: 0 },
    ];
    assert_eq!(Select::build(&over, true).err(), Some(SelectError::TooManyBranches));
}

#[test]
fn case_errors_come_before_branch_count() {
    let cases = vec![
        CaseDesc::Branch { guards: vec![false; 70], bound: false, arms: 0 },
        CaseDesc::Default,
        CaseDesc::Default,
    ];
    assert_eq!(Select::build(&cases, true).err(), Some(SelectError::DuplicateDefault));
}

#[test]
fn mask_widths() {
    assert_eq!(mask_width(0), Some(8));
    assert_eq!(mask_width(8), Some(8));
    assert_eq!(mask_width(9), Some(16));
    assert_eq!(mask_width(16), Some(16));
    assert_eq!(mask_width(17), Some(32));
    assert_eq!(mask_width(33), Some(64));
    assert_eq!(mask_width(64), Some(64));
    assert_eq!(mask_width(65), None);
}

#[test]
fn mask_insert_and_contains() {
    let mut m = Mask::empty();
    assert!(!m.contains(0));
    m.insert(63);
    m.insert(5);
    assert!(m.contains(63));
    assert!(m.contains(5));
    assert!(!m.contains(6));
    assert_eq!(m.bits, (1u64 << 63) | (1u64 << 5));
}

#[test]
fn biased_second_branch_ready_doubles_value() {
    let sel = built(vec![single(false), single(false), single(false)], true);
    let mut a = Activation::new(&sel, &vec![false, false, false], 0);
    assert_eq!(a.resume(), Step::Poll { branch: 0 });
    assert_eq!(a.on_pending(), Step::Poll { branch: 1 });
    let value = 5;
    let step = a.on_ready();
    assert_eq!(step, Step::Run { branch: 1, arm: 0 });
    let result = match step {
        Step::Run { branch: 1, .. } => value * 2,
        _ => 0,
    };
    assert_eq!(result, 10);
    assert_eq!(a.phase, Phase::Done);
    assert!(!a.disabled.contains(2));
}

#[test]
fn guard_disabled_branch_and_pending_branch_suspend() {
    let sel = built(vec![single(true), single(false)], true);
    let mut a = Activation::new(&sel, &vec![true, false], 0);
    assert!(a.disabled.contains(0));
    for _ in 0..3 {
        assert_eq!(a.resume(), Step::Poll { branch: 1 });
        assert_eq!(a.on_pending(), Step::Suspend);
        assert_eq!(a.phase, Phase::Suspended);
    }
}

#[test]
fn single_rejected_branch_exhausts() {
    let sel = built(vec![block(1)], false);
    let mut a = Activation::new(&sel, &vec![false], 0);
    assert_eq!(a.resume(), Step::Poll { branch: 0 });
    assert_eq!(a.on_ready(), Step::TestArm { branch: 0, arm: 0 });
    assert_eq!(a.on_arm(false), Step::Failed(SelectError::AllBranchesExhausted));
    assert_eq!(a.phase, Phase::Done);
}

#[test]
fn random_start_picks_seeded_branch() {
    let sel = built(vec![single(false), single(false)], false);
    let mut a = Activation::new(&sel, &vec![false, false], 1);
    assert_eq!(a.resume(), Step::Poll { branch: 1 });
    assert_eq!(a.on_ready(), Step::Run { branch: 1, arm: 0 });
    assert!(!a.disabled.contains(0));
}

#[test]
fn random_start_wraps_around() {
    let sel = built(vec![single(false), single(false), single(false)], false);
    let mut a = Activation::new(&sel, &vec![false, false, false], 2);
    assert_eq!(a.resume(), Step::Poll { branch: 2 });
    assert_eq!(a.on_pending(), Step::Poll { branch: 0 });
    assert_eq!(a.on_pending(), Step::Poll { branch: 1 });
    assert_eq!(a.on_pending(), Step::Suspend);
    assert_eq!(a.resume(), Step::Poll { branch: 2 });
}

#[test]
fn biased_policy_ignores_start() {
    let sel = built(vec![single(false), single(false)], true);
    let a = Activation::new(&sel, &vec![false, false], 1);
    assert_eq!(a.start, 0);
}

#[test]
fn all_disabled_routes_to_default() {
    let sel = built(vec![single(true), CaseDesc::Default, single(true)], true);
    let mut a = Activation::new(&sel, &vec![true, true], 0);
    assert_eq!(a.resume(), Step::RunDefault);
    assert_eq!(a.phase, Phase::Done);
}

#[test]
fn all_disabled_without_default_fails() {
    let sel = built(vec![single(true), single(true)], true);
    let mut a = Activation::new(&sel, &vec![true, true], 0);
    assert_eq!(a.resume(), Step::Failed(SelectError::AllBranchesExhausted));
}

#[test]
fn rejected_value_lets_sweep_continue() {
    let sel = built(vec![block(2), single(false)], true);
    let mut a = Activation::new(&sel, &vec![false, false], 0);
    assert_eq!(a.resume(), Step::Poll { branch: 0 });
    assert_eq!(a.on_ready(), Step::TestArm { branch: 0, arm: 0 });
    assert_eq!(a.on_arm(false), Step::TestArm { branch: 0, arm: 1 });
    assert_eq!(a.on_arm(false), Step::Poll { branch: 1 });
    assert!(a.disabled.contains(0));
    assert_eq!(a.on_pending(), Step::Suspend);
    assert_eq!(a.resume(), Step::Poll { branch: 1 });
    assert_eq!(a.on_ready(), Step::Run { branch: 1, arm: 0 });
}

#[test]
fn rejected_last_branch_with_default_runs_default() {
    let sel = built(vec![block(1), CaseDesc::Default], true);
    let mut a = Activation::new(&sel, &vec![false], 0);
    assert_eq!(a.resume(), Step::Poll { branch: 0 });
    assert_eq!(a.on_ready(), Step::TestArm { branch: 0, arm: 0 });
    assert_eq!(a.on_arm(false), Step::RunDefault);
}

#[test]
fn first_matching_arm_runs() {
    let sel = built(vec![block(3)], true);
    let mut a = Activation::new(&sel, &vec![false], 0);
    assert_eq!(a.resume(), Step::Poll { branch: 0 });
    assert_eq!(a.on_ready(), Step::TestArm { branch: 0, arm: 0 });
    assert_eq!(a.on_arm(false), Step::TestArm { branch: 0, arm: 1 });
    assert_eq!(a.on_arm(true), Step::Run { branch: 0, arm: 1 });
    assert_eq!(a.phase, Phase::Done);
}

#[test]
fn biased_polls_lowest_enabled_first() {
    let sel = built(
        vec![
            CaseDesc::Branch { guards: vec![true, false], bound: true, arms: 0 },
            single(true),
            single(false),
        ],
        true,
    );
    let mut a = Activation::new(&sel, &vec![true, false, true, false], 0);
    assert_eq!(a.resume(), Step::Poll { branch: 1 });
    assert_eq!(a.on_ready(), Step::Run { branch: 1, arm: 0 });
}

#[test]
fn unguarded_branch_ignores_guard_value() {
    let sel = built(vec![single(false)], true);
    let mut a = Activation::new(&sel, &vec![true], 0);
    assert!(!a.disabled.contains(0));
    assert_eq!(a.resume(), Step::Poll { branch: 0 });
}

#[test]
fn no_branches_without_default_fails_at_once() {
    let sel = built(vec![], false);
    let mut a = Activation::new(&sel, &vec![], 0);
    assert_eq!(a.resume(), Step::Failed(SelectError::AllBranchesExhausted));
}
