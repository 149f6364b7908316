use vr_tracking::arith::isqrt;
use vr_tracking::depth::{
    compute_pair_depth, DEPTH_SCALE, FOCAL_LENGTH_PX, LED_SPACING, MAX_DISTANCE_SQUARED,
};
use vr_tracking::pose::UNITS_PER_METRE;
use vr_tracking::{IRBlob, VRDevice};

fn blob(x: u16, y: u16) -> IRBlob {
    IRBlob { x, y, size: 1 }
}

fn frame(points: &[(u16, u16)]) -> Vec<IRBlob> {
    points.iter().map(|&(x, y)| blob(x, y)).collect()
}

fn depth_of(points: &[(u16, u16)]) -> Option<u64> {
    VRDevice::new().estimate_depth(&frame(points))
}

/// The depth in metres as the perspective formula gives it in floating point.
fn real_depth(points: &[(u16, u16)]) -> f64 {
    let mut sum = 0.0;
    let mut count = 0;
    for i in 0..points.len() {
        for j in (i + 1)..points.len() {
            let dx = points[i].0 as f64 - points[j].0 as f64;
            let dy = points[i].1 as f64 - points[j].1 as f64;
            let distance = (dx * dx + dy * dy).sqrt();
            if distance < 1.0 {
                continue;
            }
            sum += (0.085 * 1728.0) / distance;
            count += 1;
        }
    }
    sum / count as f64
}

/// Whether a depth in length units agrees with one in metres to one part
/// in a million million.
fn agrees(fixed: u64, metres: f64) -> bool {
    let real = metres * UNITS_PER_METRE as f64;
    (fixed as f64 - real).abs() <= real * 1e-12 + 2.0
}

#[test]
fn depth_scale_is_spacing_times_focal_length() {
    assert_eq!(UNITS_PER_METRE, 100_000_000_000_000);
    assert_eq!(LED_SPACING as f64 / UNITS_PER_METRE as f64, 0.085);
    assert_eq!(FOCAL_LENGTH_PX, 1728);
    assert_eq!(DEPTH_SCALE, LED_SPACING * FOCAL_LENGTH_PX);
    assert_eq!(MAX_DISTANCE_SQUARED, 2 * 65535 * 65535);
}

#[test]
fn isqrt_rounds_down() {
    assert_eq!(isqrt(0), 0);
    assert_eq!(isqrt(1), 1);
    assert_eq!(isqrt(2), 1);
    assert_eq!(isqrt(3), 1);
    assert_eq!(isqrt(4), 2);
    assert_eq!(isqrt(15), 3);
    assert_eq!(isqrt(16), 4);
    assert_eq!(isqrt(17), 4);
    assert_eq!(isqrt(1_000_000), 1000);
    assert_eq!(isqrt(999_999), 999);
}

#[test]
fn isqrt_of_the_largest_word() {
    let top: u128 = 18_446_744_073_709_551_615;
    assert_eq!(isqrt(u128::MAX), top);
    assert_eq!(isqrt(top * top), top);
    assert_eq!(isqrt(top * top - 1), top - 1);
}

#[test]
fn pair_depth_at_one_pixel_is_the_scale() {
    assert_eq!(compute_pair_depth(1), 14_688_000_000_000_000);
}

#[test]
fn pair_depth_divides_the_scale_by_the_distance() {
    assert_eq!(compute_pair_depth(4), DEPTH_SCALE / 2);
    assert_eq!(compute_pair_depth(25), DEPTH_SCALE / 5);
    assert_eq!(compute_pair_depth(10_000), 146_880_000_000_000);
    assert_eq!(compute_pair_depth(40_000), 73_440_000_000_000);
    assert_eq!(compute_pair_depth(90_000), 48_960_000_000_000);
}

#[test]
fn pair_depth_rounds_down_for_irrational_distances() {
    assert_eq!(compute_pair_depth(2), 10_385_984_402_068_010);
    assert_eq!(compute_pair_depth(3), 8_480_120_753_857_223);
    assert_eq!(compute_pair_depth(5), 6_568_673_290_703_382);
    assert_eq!(compute_pair_depth(13), 4_073_718_241_078_082);
}

#[test]
fn pair_depth_across_the_whole_coordinate_range() {
    assert_eq!(compute_pair_depth(MAX_DISTANCE_SQUARED), 158_479_963_409);
    assert_eq!(compute_pair_depth(MAX_DISTANCE_SQUARED - 1), 158_479_963_419);
}

#[test]
fn pair_depth_tells_neighbouring_distances_apart() {
    let mut d2 = 1;
    while d2 < MAX_DISTANCE_SQUARED {
        assert!(compute_pair_depth(d2 + 1) < compute_pair_depth(d2));
        d2 = d2 * 3 + 1;
    }
    for d2 in (MAX_DISTANCE_SQUARED - 1000)..MAX_DISTANCE_SQUARED {
        assert!(compute_pair_depth(d2 + 1) < compute_pair_depth(d2));
    }
}

#[test]
fn pixel_distance_squared_is_symmetric() {
    let a = blob(10, 10);
    let b = blob(13, 14);
    assert_eq!(a.pixel_distance_squared(&b), 25);
    assert_eq!(b.pixel_distance_squared(&a), 25);
    assert_eq!(a.pixel_distance_squared(&a), 0);
}

#[test]
fn pixel_distance_squared_at_the_extremes() {
    let a = blob(0, 0);
    let b = blob(65535, 65535);
    assert_eq!(a.pixel_distance_squared(&b), MAX_DISTANCE_SQUARED);
    assert_eq!(b.pixel_distance_squared(&a), MAX_DISTANCE_SQUARED);
}

#[test]
fn no_depth_for_an_empty_frame() {
    assert_eq!(depth_of(&[]), None);
}

#[test]
fn no_depth_for_a_single_blob() {
    assert_eq!(depth_of(&[(512, 384)]), None);
}

#[test]
fn no_depth_when_all_blobs_coincide() {
    assert_eq!(depth_of(&[(500, 300), (500, 300)]), None);
    assert_eq!(depth_of(&[(7, 7), (7, 7), (7, 7), (7, 7)]), None);
}

#[test]
fn depth_of_two_blobs_a_hundred_pixels_apart() {
    // 1.4688 m.
    assert_eq!(depth_of(&[(0, 0), (100, 0)]), Some(146_880_000_000_000));
}

#[test]
fn depth_ignores_blob_size() {
    let blobs = vec![IRBlob { x: 0, y: 0, size: 0 }, IRBlob { x: 100, y: 0, size: 255 }];
    assert_eq!(VRDevice::new().estimate_depth(&blobs), Some(146_880_000_000_000));
}

#[test]
fn depth_is_the_mean_over_all_pairs() {
    // Pairs 100, 300 and 200 pixels apart: 1.4688 m, 0.4896 m and 0.7344 m.
    assert_eq!(depth_of(&[(0, 0), (100, 0), (300, 0)]), Some(89_760_000_000_000));
    assert_eq!(depth_of(&[(0, 0), (3, 0), (0, 4)]), Some(3_835_200_000_000_000));
}

#[test]
fn depth_mean_rounds_down() {
    // Pair depths 48960000000000 and twice 69239896013786.
    assert_eq!(depth_of(&[(400, 500), (700, 500), (550, 650)]), Some(62_479_930_675_857));
    // Pair depths 2937600000000000, 1468800000000000 and 1821822181646293.
    assert_eq!(depth_of(&[(10, 10), (13, 14), (20, 10)]), Some(2_076_074_060_548_764));
}

#[test]
fn depth_skips_coinciding_pairs() {
    // The two coinciding blobs form no pair; each forms one with the third.
    assert_eq!(depth_of(&[(500, 300), (500, 300), (600, 300)]), Some(146_880_000_000_000));
}

#[test]
fn depth_does_not_depend_on_blob_order() {
    let a = depth_of(&[(400, 500), (700, 500), (550, 650)]);
    let b = depth_of(&[(550, 650), (400, 500), (700, 500)]);
    let c = depth_of(&[(700, 500), (550, 650), (400, 500)]);
    assert_eq!(a, b);
    assert_eq!(a, c);
}

#[test]
fn depth_at_the_closest_and_farthest() {
    assert_eq!(depth_of(&[(0, 0), (1, 0)]), Some(DEPTH_SCALE));
    assert_eq!(depth_of(&[(0, 0), (1, 1)]), Some(10_385_984_402_068_010));
    assert_eq!(depth_of(&[(0, 0), (65535, 65535)]), Some(158_479_963_409));
}

#[test]
fn depth_decreases_when_blobs_spread_apart() {
    let near = depth_of(&[(500, 300), (520, 300), (510, 320)]).unwrap();
    let far = depth_of(&[(480, 280), (540, 280), (510, 350)]).unwrap();
    let farther = depth_of(&[(400, 200), (620, 200), (510, 500)]).unwrap();
    assert!(far < near);
    assert!(farther < far);
}

#[test]
fn depth_decreases_by_the_smallest_spread() {
    // A pair a thousand pixels apart, moved by a fraction of a pixel.
    assert_eq!(depth_of(&[(0, 0), (1000, 1)]), Some(14_687_992_656_005));
    assert_eq!(depth_of(&[(0, 0), (1000, 2)]), Some(14_687_970_624_088));
    let near = depth_of(&[(0, 0), (1000, 1)]).unwrap();
    let far = depth_of(&[(0, 0), (1000, 2)]).unwrap();
    assert!(far < near);
}

#[test]
fn depth_decreases_by_the_smallest_spread_at_the_far_end() {
    let near = depth_of(&[(0, 0), (65535, 65534)]).unwrap();
    let far = depth_of(&[(0, 0), (65535, 65535)]).unwrap();
    assert!(far < near);
    let near = depth_of(&[(0, 1), (1023, 767), (3, 700)]).unwrap();
    let far = depth_of(&[(0, 0), (1023, 767), (3, 701)]).unwrap();
    assert!(far < near);
}

#[test]
fn depth_is_unchanged_by_translation() {
    let a = depth_of(&[(100, 100), (160, 180), (90, 200)]);
    let b = depth_of(&[(600, 400), (660, 480), (590, 500)]);
    assert_eq!(a, b);
}

#[test]
fn depth_agrees_with_the_real_formula() {
    let frames: [&[(u16, u16)]; 6] = [
        &[(0, 0), (100, 0)],
        &[(0, 0), (1000, 1)],
        &[(400, 500), (700, 500), (550, 650)],
        &[(412, 284), (612, 284), (412, 484), (612, 484)],
        &[(10, 10), (13, 14), (20, 10)],
        &[(100, 700), (900, 50), (512, 384), (3, 3), (1023, 767)],
    ];
    for points in frames {
        let fixed = depth_of(points).unwrap();
        assert!(agrees(fixed, real_depth(points)), "{fixed} for {points:?}");
    }
}

#[test]
fn depth_of_a_large_frame() {
    let mut blobs = Vec::new();
    for i in 0..200u16 {
        blobs.push(blob(i * 5, (i * 37) % 768));
    }
    let points: Vec<(u16, u16)> = blobs.iter().map(|b| (b.x, b.y)).collect();
    let fixed = VRDevice::new().estimate_depth(&blobs).unwrap();
    assert!(agrees(fixed, real_depth(&points)));
}
