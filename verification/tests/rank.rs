use rps_sim::rank::rank_types;

#[test]
fn rank_orders_by_count_then_by_type() {
    let masks = vec![1u32 << 2, 1u32 << 3, 1u32 << 3, 1u32 << 1, 1u32 << 3, 1u32 << 2];
    assert_eq!(rank_types(3, &masks), vec![3, 2, 1]);
}

#[test]
fn rank_ties_keep_numeric_order() {
    let masks = vec![1u32 << 3, 1u32 << 1];
    assert_eq!(rank_types(4, &masks), vec![1, 3, 2, 4]);
}

#[test]
fn rank_of_empty_population_and_roster() {
    assert_eq!(rank_types(0, &vec![]), Vec::<i32>::new());
    assert_eq!(rank_types(3, &vec![]), vec![1, 2, 3]);
}

#[test]
fn rank_uses_the_lowest_type_bit() {
    let masks = vec![(1u32 << 2) | (1u32 << 3), 1u32 << 3];
    assert_eq!(rank_types(3, &masks), vec![2, 3, 1]);
}

#[test]
fn rank_with_more_than_31_types() {
    let masks = vec![1u32 << 4, 1u32 << 4, 1u32 << 2];
    let r = rank_types(35, &masks);
    assert_eq!(r.len(), 35);
    assert_eq!(&r[..3], &[4, 2, 1]);
    assert_eq!(r[34], 35);
}
