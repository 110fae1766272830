use lever::index::bitonics::{Balancer, Bitonic, Merger};
use lever::index::zonemap::Zone;

#[test]
fn test_bitonic_traversal() {
    let data: Vec<Vec<usize>> = vec![
        vec![9, 3, 1],
        vec![5, 4],
        vec![11, 23, 4, 10],
        vec![30, 40, 2],
    ];

    let mut bitonic = Bitonic::new(4);
    let wires = data
        .iter()
        .flatten()
        .map(|d| bitonic.traverse(*d))
        .collect::<Vec<usize>>();

    assert_eq!(&*wires, [0, 2, 1, 3, 0, 1, 2, 3, 0, 2, 1, 3])
}

#[test]
fn balancer_alternates() {
    let mut b = Balancer::new();
    assert_eq!(b.traverse(), 0);
    assert_eq!(b.traverse(), 1);
    assert_eq!(b.traverse(), 0);
}

#[test]
fn merger_of_width_four() {
    let mut m = Merger::new(4);
    // Entering on wire 0 goes through the first half, then the balancer it leaves on.
    assert_eq!(m.traverse(0), 0);
    assert_eq!(m.traverse(0), 1);
    assert_eq!(m.traverse(1), 1);
}

#[test]
fn zone_accessors() {
    let z = Zone::with_range(3, 9, 13);
    assert_eq!(z.zone_triple(), (3, 9, 13));
    assert_eq!(z.hits(), 0);
}
