use lib::task::JoinError;
use lib::workload::{
    burn, burn_checksum, burn_leaf_value, chain_fold, count_leaf_value, count_step, fold_joined, fold_step, group_sizes, leaf_plan,
    mix64, sleep_leaf_value, FoldFailure, LeafPlan, XorShift64,
};

#[test]
fn xorshift_sequence() {
    let mut g = XorShift64::new(1);
    assert_eq!(g.next_u64(), 1082269761);
    assert_eq!(g.next_u64(), 1152992998833853505);
    let mut z = XorShift64::new(0);
    assert_eq!(z.next_u64(), 1082269761);
    let mut h = XorShift64::new(1);
    assert_eq!(h.next_u32(), 0);
}

#[test]
fn mix_values() {
    assert_eq!(mix64(0), 0);
    assert_eq!(mix64(1), 12994781566227106604);
    assert_eq!(mix64(0xC0FFEE), 2485524145757357343);
}

#[test]
fn burn_values() {
    assert_eq!(burn(5, 0), 5);
    assert_eq!(burn(5, 3), 12191766356596555009);
    assert_eq!(burn_checksum(7, 3), 11530593435977251469);
}

#[test]
fn fold_and_count() {
    assert_eq!(fold_step(0, Some(1), 9), mix64(1));
    assert_eq!(fold_step(0, None, 1), mix64(1));
    assert_eq!(count_step(3, 3), (true, 3));
    assert_eq!(count_step(2, 3), (false, 3));
}

#[test]
fn reduction_levels() {
    assert_eq!(group_sizes(0, 8), Vec::<usize>::new());
    assert_eq!(group_sizes(8, 8), vec![8]);
    assert_eq!(group_sizes(17, 8), vec![8, 8, 1]);
    assert_eq!(group_sizes(5, 2), vec![2, 2, 1]);
}

#[test]
fn fold_joined_mixes_values_and_marks() {
    let items: Vec<Result<Result<u64, &'static str>, JoinError>> = vec![Ok(Ok(5)), Ok(Err("bad"))];
    let want = mix64(mix64(mix64(7) ^ 5) ^ 9);
    assert_eq!(fold_joined(7, 9, Ok(items)), Ok(want));
}

#[test]
fn fold_joined_reports_failures() {
    let items: Vec<Result<Result<u64, &'static str>, JoinError>> = vec![Ok(Ok(5)), Err(JoinError::Panicked), Ok(Ok(1))];
    assert_eq!(fold_joined(7, 9, Ok(items)), Err(FoldFailure::ChildFailed(JoinError::Panicked)));
    let none: Result<Vec<Result<Result<u64, &'static str>, JoinError>>, JoinError> = Err(JoinError::Panicked);
    assert_eq!(fold_joined(7, 9, none), Err(FoldFailure::JoinFailed(JoinError::Panicked)));
}

#[test]
fn chain_fold_fails_every_97th_level() {
    let items: Vec<Result<Result<u64, &'static str>, JoinError>> = vec![Ok(Ok(1))];
    assert_eq!(chain_fold(97, Ok(items.clone())), Err(FoldFailure::Injected));
    let want = mix64(mix64(3u64 ^ 0xAAAA_BBBB_CCCC_DDDD) ^ 1);
    assert_eq!(chain_fold(3, Ok(items)), Ok(want));
}

#[test]
fn leaf_plans_and_values() {
    assert_eq!(leaf_plan(3, 30, 1), LeafPlan::Sleep { ms: 6 });
    assert_eq!(leaf_plan(4, 41, 997), LeafPlan::Burn { chunks: 26, panic_at: Some(13) });
    assert_eq!(leaf_plan(5, 80, 2), LeafPlan::Count { target: 10 });
    assert_eq!(sleep_leaf_value(251, 3), None);
    assert_eq!(sleep_leaf_value(2, 3), Some(2 ^ (3 << 32)));
    assert_eq!(burn_leaf_value(149), None);
    assert_eq!(burn_leaf_value(1), Some(0xBADC0FFE ^ 1));
    assert_eq!(count_leaf_value(127, 17), None);
    assert_eq!(count_leaf_value(127, 1), Some(127 ^ 31));
}
