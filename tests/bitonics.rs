use lever::stats::bitonics::{BalancingBitonic, CountingBitonic};

fn data() -> Vec<Vec<usize>> {
    vec![
        vec![9, 3, 1],
        vec![5, 4],
        vec![11, 23, 4, 10],
        vec![30, 40, 2],
    ]
}

#[test]
fn test_balancing_bitonic_traversal() {
    let data = data();
    let mut bitonic = BalancingBitonic::new(4);
    let wires = data
        .iter()
        .flatten()
        .map(|d| bitonic.traverse(*d))
        .collect::<Vec<usize>>();

    assert_eq!(&*wires, [0, 2, 1, 3, 0, 1, 2, 3, 0, 2, 1, 3])
}

#[test]
fn test_counting_bitonic_traversal() {
    let data = data();
    let mut bitonic = CountingBitonic::new(4);
    let wires = data
        .iter()
        .flatten()
        .map(|d| bitonic.traverse(*d))
        .collect::<Vec<usize>>();

    assert_eq!(&*wires, [0, 0, 2, 3, 5, 5, 6, 8, 9, 9, 11, 12])
}

#[test]
fn test_counting_bitonic_traversal_and_get() {
    let data = data();
    let mut bitonic = CountingBitonic::new(4);
    let wires = data
        .iter()
        .flatten()
        .map(|d| bitonic.traverse(*d))
        .collect::<Vec<usize>>();

    assert_eq!(&*wires, [0, 0, 2, 3, 5, 5, 6, 8, 9, 9, 11, 12]);
    assert_eq!(bitonic.get(), 12);
}

#[test]
fn width_four_output_counts_are_even() {
    let mut bitonic = BalancingBitonic::new(4);
    let mut counts = [0usize; 4];
    for d in data().iter().flatten() {
        counts[bitonic.traverse(*d)] += 1;
    }
    assert_eq!(counts, [3, 3, 3, 3]);
}

#[test]
fn outputs_stay_below_width() {
    let mut bitonic = BalancingBitonic::new(16);
    for d in 0..1000usize {
        assert!(bitonic.traverse(d * 7) < 16);
    }
}

#[test]
fn width_two_alternates() {
    let mut bitonic = BalancingBitonic::new(2);
    assert_eq!(bitonic.traverse(5), 0);
    assert_eq!(bitonic.traverse(5), 1);
    assert_eq!(bitonic.traverse(0), 0);
}

#[test]
fn default_counting_network_starts_at_zero() {
    let c = CountingBitonic::default();
    assert_eq!(c.get(), 0);
}

#[test]
fn width_four_outputs_for_even_heavy_inputs() {
    let mut bitonic = BalancingBitonic::new(4);
    let wires: Vec<usize> = [0usize, 0, 0, 1].iter().map(|d| bitonic.traverse(*d)).collect();
    assert_eq!(wires, vec![0, 2, 1, 0]);
}
