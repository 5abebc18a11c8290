use vfio_passthrough::align::{align_down, align_up, host_page_size};
use vfio_passthrough::ranges::{complement_ranges, sort_pairs, subtract_holes};

#[test]
fn alignment_rounds_to_multiples() {
    assert_eq!(align_down(0x1fff, 0x1000), 0x1000);
    assert_eq!(align_down(0x2000, 0x1000), 0x2000);
    assert_eq!(align_up(0x2001, 0x1000), 0x3000);
    assert_eq!(align_up(0x2000, 0x1000), 0x2000);
    assert_eq!(align_up(0, 0x1000), 0);
    assert_eq!(align_down(u64::MAX, 1), u64::MAX);
    assert_eq!(align_down(u64::MAX, 1 << 63), 1 << 63);
    // An alignment that is no power of two clears the bits of `alignment - 1`.
    assert_eq!(align_down(0b1111, 6), 0b1010);
}

#[test]
fn page_size_falls_back() {
    assert_eq!(host_page_size(4096), 4096);
    assert_eq!(host_page_size(65536), 65536);
    assert_eq!(host_page_size(-1), 4096);
}

#[test]
fn holes_are_taken_out() {
    // No hole.
    assert_eq!(subtract_holes(0, 0x4000, &[]), vec![(0, 0x4000)]);
    // In the middle, at the start, at the end.
    assert_eq!(
        subtract_holes(0, 0x4000, &[(0x1000, 0x2000)]),
        vec![(0, 0x1000), (0x2000, 0x2000)]
    );
    assert_eq!(subtract_holes(0, 0x4000, &[(0, 0x1000)]), vec![(0x1000, 0x3000)]);
    assert_eq!(subtract_holes(0, 0x4000, &[(0x3000, 0x5000)]), vec![(0, 0x3000)]);
    // All of it, and none of it.
    assert_eq!(subtract_holes(0x1000, 0x2000, &[(0, 0x4000)]), vec![]);
    assert_eq!(
        subtract_holes(0x1000, 0x2000, &[(0x2000, 0x3000), (0, 0x1000)]),
        vec![(0x1000, 0x1000)]
    );
    // Two holes, in any order, and overlapping ones.
    assert_eq!(
        subtract_holes(0, 0x8000, &[(0x5000, 0x6000), (0x1000, 0x2000)]),
        vec![(0, 0x1000), (0x2000, 0x3000), (0x6000, 0x2000)]
    );
    assert_eq!(
        subtract_holes(0, 0x8000, &[(0x1000, 0x3000), (0x2000, 0x4000)]),
        vec![(0, 0x1000), (0x4000, 0x4000)]
    );
    // Nothing is left of nothing.
    assert_eq!(subtract_holes(5, 5, &[]), vec![]);
    // An empty hole splits, and one that ends before it starts covers nothing.
    assert_eq!(subtract_holes(0, 10, &[(5, 5)]), vec![(0, 5), (5, 5)]);
    assert_eq!(subtract_holes(0, 10, &[(7, 3)]), vec![(0, 7), (3, 7)]);
}

#[test]
fn complement_is_what_is_not_mapped() {
    assert_eq!(complement_ranges(0x4000, &[]), vec![(0, 0x4000)]);
    assert_eq!(
        complement_ranges(0x4000, &[(0x1000, 0x1000)]),
        vec![(0, 0x1000), (0x2000, 0x2000)]
    );
    assert_eq!(complement_ranges(0x4000, &[(0, 0x4000)]), vec![]);
    assert_eq!(
        complement_ranges(0x4000, &[(0, 0x1000), (0x3000, 0x1000)]),
        vec![(0x1000, 0x2000)]
    );
    // Past the end of the region.
    assert_eq!(complement_ranges(0x4000, &[(0x3000, 0x9000)]), vec![(0, 0x3000)]);
    assert_eq!(complement_ranges(0x4000, &[(0x5000, 0x1000)]), vec![(0, 0x4000)]);
    assert_eq!(complement_ranges(0x4000, &[(0x1000, u64::MAX)]), vec![(0, 0x1000)]);
    // Overlapping ones.
    assert_eq!(
        complement_ranges(0x4000, &[(0, 0x2000), (0x1000, 0x2000)]),
        vec![(0x3000, 0x1000)]
    );
    assert_eq!(complement_ranges(0, &[(0, 1)]), vec![]);
}

#[test]
fn complement_gives_back_the_holes() {
    let left = subtract_holes(0, 0x8000, &[(0x1000, 0x2000), (0x5000, 0x6000)]);
    assert_eq!(complement_ranges(0x8000, &left), vec![(0x1000, 0x1000), (0x5000, 0x1000)]);
}

#[test]
fn pairs_are_sorted() {
    assert_eq!(sort_pairs(&[]), vec![]);
    assert_eq!(
        sort_pairs(&[(3, 1), (1, 9), (3, 0), (2, 5), (1, 9)]),
        vec![(1, 9), (1, 9), (2, 5), (3, 0), (3, 1)]
    );
}
