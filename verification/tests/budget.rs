//! The scheduler handles: reduction accounting, suspension on exhaustion,
//! and the partition of one context budget.
use erlang_etf::atom_cache::AtomCache;
use erlang_etf::decoder::{ReadContext, YieldableDecoder};
use erlang_etf::process::Process;
use erlang_etf::task::{Task, TaskHint, TaskState};

#[test]
fn consumed_and_remaining_partition_the_budget() {
    let mut p = Process::yielding();
    assert_eq!(p.get_consumed_reds(), 0);
    assert_eq!(p.get_remaining_reds(), 4000);
    p.bump_reds(1);
    assert_eq!(p.get_consumed_reds(), 1);
    assert_eq!(p.get_remaining_reds(), 3999);
    p.bump_reds(41);
    assert_eq!(p.get_consumed_reds() + p.get_remaining_reds(), 4000);
}

#[test]
fn budget_partition_holds_after_a_decode() {
    let mut d = YieldableDecoder::new(vec![131, 104, 2, 97, 1, 97, 2]);
    let mut ctx = ReadContext::new(Process::yielding(), AtomCache::new());
    d.read_external_term(&mut ctx).unwrap();
    let consumed = ctx.process.get_consumed_reds();
    let remaining = ctx.process.get_remaining_reds();
    assert!(consumed > 0);
    assert_eq!(consumed + remaining, 4000);
}

#[test]
fn exhaustion_suspends_and_resets() {
    let mut p = Process::yielding();
    p.bump_reds(3999);
    assert_eq!(p.get_consumed_reds(), 3999);
    // The next charge crosses the threshold: the handle suspends and the
    // fresh slice starts with a reset counter.
    p.bump_reds(2);
    assert_eq!(p.get_consumed_reds(), 0);
    assert_eq!(p.get_remaining_reds(), 4000);
}

#[test]
fn bump_all_forces_a_fresh_slice() {
    let mut p = Process::yielding();
    p.bump_reds(17);
    p.bump_all_reds();
    assert_eq!(p.get_consumed_reds(), 0);
}

#[test]
fn blocking_handle_reports_nominal_values() {
    let mut p = Process::blocking();
    p.bump_reds(12345);
    assert_eq!(p.get_consumed_reds(), 0);
    assert_eq!(p.get_remaining_reds(), 0);
    assert_eq!(p.get_timeslice_pct(), 1);
}

#[test]
fn timeslice_pct_is_clamped() {
    let mut p = Process::yielding();
    assert_eq!(p.get_timeslice_pct(), 1);
    p.bump_reds(2000);
    assert_eq!(p.get_timeslice_pct(), 50);
    p.bump_reds(1900);
    assert_eq!(p.get_timeslice_pct(), 97);
}

#[test]
fn long_string_list_charges_per_chunk() {
    // A byte-string list long enough to cross the per-4096-byte charge.
    let n: usize = 9000;
    let mut buf = vec![131, 107, (n >> 8) as u8, n as u8];
    buf.extend(std::iter::repeat(7u8).take(n));
    let mut d = YieldableDecoder::new(buf);
    let mut ctx = ReadContext::new(Process::yielding(), AtomCache::new());
    let t = d.read_external_term(&mut ctx).unwrap();
    match t {
        erlang_etf::term::Term::List(l) => assert_eq!(l.elements.len(), n),
        other => panic!("expected a list, got {:?}", other),
    }
    assert_eq!(
        ctx.process.get_consumed_reds() + ctx.process.get_remaining_reds(),
        4000
    );
    // Entry, dispatch, and five reductions for each of the two chunks past
    // the first.
    assert_eq!(ctx.process.get_consumed_reds(), 2 + 10);
}

#[test]
fn step_task_counts_down_and_yields() {
    let mut t = Task::yielding(7);
    t.reset_after_yield();
    assert_eq!(t.get_remaining_reds(), 7);
    assert_eq!(t.bump_reds(3), TaskHint::Continue);
    assert_eq!(t.get_remaining_reds(), 4);
    assert_eq!(t.get_consumed_reds(), 3);
    assert_eq!(t.bump_reds(4), TaskHint::Yield);
    assert!(t.should_yield());
    t.reset_after_yield();
    assert!(!t.should_yield());
}

#[test]
fn zero_slice_task_degenerates_to_blocking() {
    let mut t = Task::yielding(0);
    assert_eq!(t.bump_reds(100), TaskHint::Continue);
    assert_eq!(t.bump_all_reds(), TaskHint::Continue);
    assert!(!t.should_yield());
}

#[test]
fn task_states_compare_structurally() {
    let a: TaskState<(), u32> = TaskState::Complete(7);
    let b: TaskState<(), u32> = TaskState::Complete(7);
    assert_eq!(a, b);
    let y: TaskState<(), u32> = TaskState::Yielded(());
    assert_ne!(a, y);
}
