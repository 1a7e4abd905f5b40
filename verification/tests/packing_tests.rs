use wraith::packing::pack_into_bin;
use wraith::packing::pack_with_growth;

#[test]
fn shelf_positions_are_deterministic() {
    let sizes = vec![(16, 16), (32, 16), (16, 32)];
    let rects = pack_into_bin(&sizes, 64, 64).unwrap();
    let placed: Vec<(u32, u32, u32, u32)> =
        rects.iter().map(|r| (r.x, r.y, r.width, r.height)).collect();
    assert_eq!(placed, vec![(0, 0, 16, 16), (16, 0, 32, 16), (48, 0, 16, 32)]);
}

#[test]
fn bin_too_small_for_all_requests() {
    let sizes = vec![(16, 16), (32, 16), (16, 32)];
    assert!(pack_into_bin(&sizes, 32, 32).is_none());
}

#[test]
fn growth_doubles_until_requests_fit() {
    let sizes = vec![(16, 16), (32, 16), (16, 32)];
    let (_, bin_w, bin_h) = pack_with_growth(&sizes, 32, 32, 4096, 4096).unwrap();
    assert_eq!((bin_w, bin_h), (64, 64));
}

#[test]
fn growth_gives_up_at_the_maximum() {
    let sizes = vec![(5000, 5000)];
    assert!(pack_with_growth(&sizes, 32, 32, 4096, 4096).is_none());
}

#[test]
fn unit_requests_fill_the_bin_exactly() {
    let mut sizes = Vec::new();
    for _ in 0..1024 {
        sizes.push((1, 1));
    }
    assert!(pack_into_bin(&sizes, 32, 32).is_some());
    sizes.push((1, 1));
    assert!(pack_into_bin(&sizes, 32, 32).is_none());
}

#[test]
fn new_row_opens_below_the_tallest_placement() {
    let sizes = vec![(10, 4), (10, 8), (10, 2), (10, 3)];
    let rects = pack_into_bin(&sizes, 32, 16).unwrap();
    let placed: Vec<(u32, u32)> = rects.iter().map(|r| (r.x, r.y)).collect();
    // Three fit in the first row; the fourth starts a row below the
    // tallest of them.
    assert_eq!(placed, vec![(0, 0), (10, 0), (20, 0), (0, 8)]);
}
