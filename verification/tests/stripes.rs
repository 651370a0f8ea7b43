use std::ops::Range;
use verlet_integration::stripes::{slabs, Phase};

fn by_filter(width: usize, residue: usize) -> Vec<Range<usize>> {
    (1..width - 1)
        .filter(|i| i % 4 == residue)
        .map(|i| i..std::cmp::min(i + 2, width - 1))
        .collect()
}

#[test]
fn phase_starts_at_its_first_column() {
    assert_eq!(Phase::Even.first(), 1);
    assert_eq!(Phase::Odd.first(), 3);
}

#[test]
fn slabs_of_a_ten_column_grid() {
    assert_eq!(slabs(10, Phase::Even), vec![1..3, 5..7]);
    assert_eq!(slabs(10, Phase::Odd), vec![3..5, 7..9]);
}

#[test]
fn last_slab_is_cut_at_the_interior_end() {
    assert_eq!(slabs(5, Phase::Even), vec![1..3]);
    assert_eq!(slabs(5, Phase::Odd), vec![3..4]);
    assert_eq!(slabs(7, Phase::Even), vec![1..3, 5..6]);
    assert_eq!(slabs(7, Phase::Odd), vec![3..5]);
}

#[test]
fn narrow_grids_have_no_slabs() {
    for width in 0..3 {
        assert!(slabs(width, Phase::Even).is_empty());
        assert!(slabs(width, Phase::Odd).is_empty());
    }
    assert_eq!(slabs(3, Phase::Even), vec![1..2]);
    assert!(slabs(3, Phase::Odd).is_empty());
    assert_eq!(slabs(4, Phase::Even), vec![1..3]);
    assert!(slabs(4, Phase::Odd).is_empty());
}

#[test]
fn slabs_agree_with_filtering_the_columns() {
    for width in 1..200 {
        assert_eq!(slabs(width, Phase::Even), by_filter(width, 1), "width {}", width);
        assert_eq!(slabs(width, Phase::Odd), by_filter(width, 3), "width {}", width);
    }
}

#[test]
fn every_interior_column_has_one_owner() {
    for width in 0..120usize {
        let mut owners = vec![0usize; width];
        for phase in [Phase::Even, Phase::Odd] {
            for slab in slabs(width, phase) {
                assert!(slab.start < slab.end);
                assert!(slab.end - slab.start <= 2);
                for col in slab {
                    owners[col] += 1;
                }
            }
        }
        for col in 0..width {
            let interior = col >= 1 && col + 1 < width;
            assert_eq!(owners[col], if interior { 1 } else { 0 }, "width {} col {}", width, col);
        }
    }
}

#[test]
fn slabs_of_one_phase_keep_their_distance() {
    for width in 0..120usize {
        for phase in [Phase::Even, Phase::Odd] {
            let group = slabs(width, phase);
            for pair in group.windows(2) {
                // The earlier slab reads up to its end column, the later one from the
                // column before its start.
                assert!(pair[0].end < pair[1].start - 1);
            }
        }
    }
}
