use erasure_bench::plan::{
    benchmark_plan, PlanEntry, PLAN_BYTES_PER_ENCODE, PLAN_ITERATIONS, PLAN_PER_SHARD,
};

#[test]
fn plan_has_every_configuration_in_order() {
    let plan = benchmark_plan();
    let mut expected: Vec<(usize, usize)> = Vec::new();
    for data in (4..=16).step_by(2) {
        for parity in (2..=data).step_by(2) {
            expected.push((data, parity));
        }
    }
    assert_eq!(plan.len(), 35);
    assert_eq!(plan.len(), expected.len());
    for (entry, (d, p)) in plan.iter().zip(expected.iter()) {
        assert_eq!(entry.data_shards, *d);
        assert_eq!(entry.parity_shards, *p);
    }
}

#[test]
fn plan_first_and_last_entries() {
    let plan = benchmark_plan();
    assert_eq!(
        plan[0],
        PlanEntry { data_shards: 4, parity_shards: 2, recoverability: 15 }
    );
    assert_eq!(
        plan[plan.len() - 1],
        PlanEntry { data_shards: 16, parity_shards: 16, recoverability: 601080390 }
    );
}

#[test]
fn plan_recoverability_values() {
    let plan = benchmark_plan();
    let find = |d: usize, p: usize| plan.iter().find(|e| e.data_shards == d && e.parity_shards == p).unwrap().recoverability;
    assert_eq!(find(4, 4), 70);
    assert_eq!(find(10, 2), 66);
    assert_eq!(find(10, 4), 1001);
    assert_eq!(find(8, 8), 12870);
}

#[test]
fn plan_constants() {
    assert_eq!(PLAN_ITERATIONS, 500);
    assert_eq!(PLAN_PER_SHARD, 1280 - 40 - 8);
    assert_eq!(PLAN_BYTES_PER_ENCODE, 32768);
}
