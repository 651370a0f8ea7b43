use verlet_integration::link::{ordered, prune, Connection, Link};
use verlet_integration::particle::Scalar;

fn rod(length: f32) -> Link {
    Link::Rigid(Scalar::from_bits(length.to_bits()))
}

fn spring(force: f32) -> Link {
    Link::Force(Scalar::from_bits(force.to_bits()))
}

#[test]
fn ordered_puts_the_lower_end_first() {
    assert_eq!(ordered((2, 5, rod(1.0))), (2, 5, rod(1.0)));
    assert_eq!(ordered((5, 2, rod(1.0))), (2, 5, rod(1.0)));
    assert_eq!(ordered((4, 4, spring(0.5))), (4, 4, spring(0.5)));
    assert_eq!(ordered((9, 0, spring(0.5))), (0, 9, spring(0.5)));
}

#[test]
fn prune_drops_links_past_the_end() {
    let mut links: Vec<Connection> = vec![
        (0, 1, rod(1.0)),
        (1, 4, rod(2.0)),
        (4, 1, spring(3.0)),
        (2, 3, spring(4.0)),
        (3, 3, rod(5.0)),
        (7, 8, rod(6.0)),
    ];
    prune(&mut links, 4);
    assert_eq!(links, vec![(0, 1, rod(1.0)), (2, 3, spring(4.0)), (3, 3, rod(5.0))]);
    prune(&mut links, 4);
    assert_eq!(links, vec![(0, 1, rod(1.0)), (2, 3, spring(4.0)), (3, 3, rod(5.0))]);
    prune(&mut links, 3);
    assert_eq!(links, vec![(0, 1, rod(1.0))]);
    prune(&mut links, 1);
    assert!(links.is_empty());
}

#[test]
fn prune_keeps_everything_that_is_live() {
    let mut links: Vec<Connection> = vec![(3, 0, rod(1.0)), (1, 2, spring(2.0))];
    prune(&mut links, 4);
    assert_eq!(links, vec![(3, 0, rod(1.0)), (1, 2, spring(2.0))]);
    prune(&mut links, usize::MAX);
    assert_eq!(links, vec![(3, 0, rod(1.0)), (1, 2, spring(2.0))]);
}

#[test]
fn prune_with_no_particles_drops_all() {
    let mut links: Vec<Connection> = vec![(0, 0, rod(1.0)), (0, 1, spring(2.0))];
    prune(&mut links, 0);
    assert!(links.is_empty());
}
