use path_tracer::bvh::{sort_key, split_at_median, Axis, BvhItem, BvhNode, MAGNITUDE_BITS, SIGN_BIT};

fn item(object: usize, min_x: i64, min_y: i64, min_z: i64) -> BvhItem {
    BvhItem { object, min_x, min_y, min_z }
}

fn leaves(node: &BvhNode, out: &mut Vec<usize>) {
    match node {
        BvhNode::Leaf { object } => out.push(*object),
        BvhNode::Branch { left, right } => {
            leaves(left, out);
            leaves(right, out);
        }
    }
}

fn height(node: &BvhNode) -> usize {
    match node {
        BvhNode::Leaf { .. } => 0,
        BvhNode::Branch { left, right } => 1 + height(left).max(height(right)),
    }
}

fn objects(items: &[BvhItem]) -> Vec<usize> {
    items.iter().map(|it| it.object).collect()
}

#[test]
fn axis_from_index_names_x_y_z() {
    assert_eq!(Axis::from_index(0), Axis::X);
    assert_eq!(Axis::from_index(1), Axis::Y);
    assert_eq!(Axis::from_index(2), Axis::Z);
}

#[test]
fn random_axis_draws_all_three() {
    let mut seen = [false; 3];
    for _ in 0..600 {
        match Axis::random() {
            Axis::X => seen[0] = true,
            Axis::Y => seen[1] = true,
            Axis::Z => seen[2] = true,
        }
    }
    assert!(seen.iter().all(|&s| s));
}

#[test]
fn item_key_picks_the_axis() {
    let it = item(9, -1, 20, 300);
    assert_eq!(it.key(Axis::X), -1);
    assert_eq!(it.key(Axis::Y), 20);
    assert_eq!(it.key(Axis::Z), 300);
}

#[test]
fn pair_puts_the_smaller_key_left() {
    let a = item(0, 5, 1, 0);
    let b = item(1, 2, 9, 0);
    let mut out = Vec::new();
    leaves(&BvhNode::pair(a, b, Axis::X), &mut out);
    assert_eq!(out, vec![1, 0]);
    out.clear();
    leaves(&BvhNode::pair(a, b, Axis::Y), &mut out);
    assert_eq!(out, vec![0, 1]);
}

#[test]
fn pair_of_equal_keys_puts_the_second_left() {
    let a = item(0, 4, 0, 0);
    let b = item(1, 4, 0, 0);
    let mut out = Vec::new();
    leaves(&BvhNode::pair(a, b, Axis::X), &mut out);
    assert_eq!(out, vec![1, 0]);
}

#[test]
fn split_sorts_and_cuts_in_the_middle() {
    let items = vec![item(0, 50, 0, 0), item(1, 10, 0, 0), item(2, 40, 0, 0), item(3, 20, 0, 0), item(4, 30, 0, 0)];
    let (lower, upper) = split_at_median(items, Axis::X);
    assert_eq!(objects(&lower), vec![1, 3]);
    assert_eq!(objects(&upper), vec![4, 2, 0]);
}

#[test]
fn split_goes_by_the_given_axis() {
    let items = vec![item(0, 1, 9, 5), item(1, 2, 8, 4), item(2, 3, 7, 6)];
    let (lower, upper) = split_at_median(items.clone(), Axis::Y);
    assert_eq!(objects(&lower), vec![2]);
    assert_eq!(objects(&upper), vec![1, 0]);
    let (lower, upper) = split_at_median(items, Axis::Z);
    assert_eq!(objects(&lower), vec![1]);
    assert_eq!(objects(&upper), vec![0, 2]);
}

#[test]
fn split_keeps_equal_keys_in_their_order() {
    let items = vec![item(0, 7, 0, 0), item(1, 3, 0, 0), item(2, 7, 0, 0), item(3, 3, 0, 0), item(4, 7, 0, 0), item(5, 3, 0, 0)];
    let (lower, upper) = split_at_median(items, Axis::X);
    assert_eq!(objects(&lower), vec![1, 3, 5]);
    assert_eq!(objects(&upper), vec![0, 2, 4]);
}

#[test]
fn split_orders_negative_keys_below_positive() {
    let items = vec![item(0, 1, 0, 0), item(1, i64::MIN, 0, 0), item(2, -1, 0, 0), item(3, i64::MAX, 0, 0)];
    let (lower, upper) = split_at_median(items, Axis::X);
    assert_eq!(objects(&lower), vec![1, 2]);
    assert_eq!(objects(&upper), vec![0, 3]);
}

#[test]
fn split_of_nothing_and_of_one() {
    let (lower, upper) = split_at_median(Vec::new(), Axis::X);
    assert!(lower.is_empty() && upper.is_empty());
    let (lower, upper) = split_at_median(vec![item(4, 0, 0, 0)], Axis::X);
    assert!(lower.is_empty());
    assert_eq!(objects(&upper), vec![4]);
}

#[test]
fn one_object_sits_on_both_sides() {
    let node = BvhNode::new_from_objects(vec![item(7, 1, 2, 3)]);
    let mut out = Vec::new();
    leaves(&node, &mut out);
    assert_eq!(out, vec![7, 7]);
    assert_eq!(height(&node), 1);
}

#[test]
fn two_objects_sit_side_by_side() {
    // The first is the smaller one on every axis, so the draw does not matter.
    let node = BvhNode::new_from_objects(vec![item(0, 1, 1, 1), item(1, 2, 2, 2)]);
    let mut out = Vec::new();
    leaves(&node, &mut out);
    assert_eq!(out, vec![0, 1]);
    let node = BvhNode::new_from_objects(vec![item(0, 2, 2, 2), item(1, 1, 1, 1)]);
    out.clear();
    leaves(&node, &mut out);
    assert_eq!(out, vec![1, 0]);
}

#[test]
fn three_objects_put_the_single_one_left() {
    // Keys agree on every axis, so the layout is the same whatever is drawn.
    let node = BvhNode::new_from_objects(vec![item(0, 30, 30, 30), item(1, 10, 10, 10), item(2, 20, 20, 20)]);
    let mut out = Vec::new();
    leaves(&node, &mut out);
    assert_eq!(out, vec![1, 1, 2, 0]);
    assert_eq!(height(&node), 2);
}

#[test]
fn hierarchy_holds_every_object() {
    let mut items = Vec::new();
    for n in 0..100usize {
        let k = ((n * 37) % 101) as i64;
        items.push(item(n, k, 100 - k, (k * k) % 17));
    }
    let node = BvhNode::new_from_objects(items);
    let mut out = Vec::new();
    leaves(&node, &mut out);
    out.sort();
    out.dedup();
    assert_eq!(out, (0..100).collect::<Vec<usize>>());
}

#[test]
fn hierarchy_is_balanced() {
    for (count, levels) in [(1usize, 1usize), (2, 1), (3, 2), (4, 2), (5, 3), (8, 3), (9, 4), (1000, 10)] {
        let items: Vec<BvhItem> = (0..count).map(|n| item(n, n as i64, 0, -(n as i64))).collect();
        assert_eq!(height(&BvhNode::new_from_objects(items)), levels);
    }
}

#[test]
fn new_builds_from_a_borrowed_list() {
    let list = vec![item(0, 3, 3, 3), item(1, 1, 1, 1), item(2, 2, 2, 2), item(3, 0, 0, 0)];
    let node = BvhNode::new(&list);
    let mut out = Vec::new();
    leaves(&node, &mut out);
    assert_eq!(out, vec![3, 1, 2, 0]);
    assert_eq!(list.len(), 4);
}

#[test]
fn sort_key_of_given_numbers() {
    assert_eq!(SIGN_BIT, 1u64 << 63);
    assert_eq!(MAGNITUDE_BITS, !(1u64 << 63));
    assert_eq!(sort_key(0.0f64.to_bits()), 0);
    assert_eq!(sort_key((-0.0f64).to_bits()), 0);
    assert_eq!(sort_key(1.0f64.to_bits()), 0x3ff0_0000_0000_0000);
    assert_eq!(sort_key((-1.0f64).to_bits()), -0x3ff0_0000_0000_0000);
    assert_eq!(sort_key(f64::INFINITY.to_bits()), 0x7ff0_0000_0000_0000);
    assert_eq!(sort_key(f64::NEG_INFINITY.to_bits()), -0x7ff0_0000_0000_0000);
    assert_eq!(sort_key(u64::MAX), -i64::MAX);
    assert_eq!(sort_key(MAGNITUDE_BITS), i64::MAX);
}

#[test]
fn sort_keys_compare_as_the_numbers_do() {
    let numbers = [
        f64::NEG_INFINITY,
        -1e300,
        -1000.0,
        -1.0,
        -1e-300,
        -5e-324,
        0.0,
        5e-324,
        1e-300,
        0.0001,
        1.0,
        554.0,
        1e300,
        f64::INFINITY,
    ];
    for a in numbers {
        for b in numbers {
            assert_eq!(a < b, sort_key(a.to_bits()) < sort_key(b.to_bits()));
            assert_eq!(a == b, sort_key(a.to_bits()) == sort_key(b.to_bits()));
        }
    }
}

#[test]
fn sort_key_puts_what_is_no_number_past_infinity() {
    assert!(sort_key(f64::NAN.to_bits()).abs() > sort_key(f64::INFINITY.to_bits()));
}

#[test]
fn item_from_bits_takes_the_keys_of_the_lower_faces() {
    let it = BvhItem::from_bits(3, (-2.5f64).to_bits(), 0.0f64.to_bits(), 7.0f64.to_bits());
    assert_eq!(it.object, 3);
    assert_eq!(it.min_x, sort_key((-2.5f64).to_bits()));
    assert_eq!(it.min_y, 0);
    assert_eq!(it.min_z, sort_key(7.0f64.to_bits()));
    assert!(it.min_x < it.min_y && it.min_y < it.min_z);
}
