use pixelation::detector::{Detector, DetectorError, PhotonRecord, NO_HIT_MIN_DISTANCE};
use pixelation::ray::{Heading, Ray};

fn ray_at(distance: i64, collision: i32, heading: Heading, cx: i32, cy: i32) -> Ray {
    Ray::new(heading, collision, distance, cx, cy, 0).unwrap()
}

fn total_hits(d: &Detector) -> u64 {
    let mut n = 0;
    for x in 0..d.resolution_width {
        for y in 0..d.resolution_height {
            n += d.pixel_count(x, y);
        }
    }
    n
}

#[test]
fn new_detector_is_empty() {
    let d = Detector::new(3, 2).unwrap();
    assert_eq!(d.resolution_width, 3);
    assert_eq!(d.resolution_height, 2);
    assert_eq!(d.min_distance, NO_HIT_MIN_DISTANCE);
    assert_eq!(d.max_distance, 0);
    for x in 0..3 {
        for y in 0..2 {
            assert_eq!(d.pixel_count(x, y), 0);
            assert_eq!(d.pixel_distance_sum(x, y), 0);
            assert_eq!(d.depth_at(x, y), 0);
            assert!(d.pixel_hits(x, y).is_empty());
        }
    }
}

#[test]
fn zero_resolution_is_refused() {
    assert_eq!(Detector::new(0, 4).err(), Some(DetectorError::ZeroResolution));
    assert_eq!(Detector::new(4, 0).err(), Some(DetectorError::ZeroResolution));
    assert_eq!(Detector::new(0, 0).err(), Some(DetectorError::ZeroResolution));
}

#[test]
fn oversized_resolution_is_refused() {
    let too_wide = u32::MAX as usize + 1;
    assert_eq!(Detector::new(too_wide, 1).err(), Some(DetectorError::ResolutionTooLarge));
    assert_eq!(Detector::new(1, too_wide).err(), Some(DetectorError::ResolutionTooLarge));
    let side = u32::MAX as usize;
    assert_eq!(Detector::new(side, side).err(), Some(DetectorError::ResolutionTooLarge));
}

#[test]
fn scan_round_trip_single_pixel() {
    // focal length 0.01, 50 degree field of view: scan mode ignores the lens.
    let mut d = Detector::new(4, 4).unwrap();
    let ray = ray_at(3_500_000, 1, Heading::Toward, 2, 1);
    assert!(d.scanLidar_photon_to_detector(&ray));
    d.generate_depth_image();
    assert_eq!(d.pixel_count(2, 1), 1);
    assert_eq!(d.depth_at(2, 1), 3_500_000);
    for x in 0..4 {
        for y in 0..4 {
            if (x, y) != (2, 1) {
                assert_eq!(d.pixel_count(x, y), 0);
                assert_eq!(d.depth_at(x, y), 0);
            }
        }
    }
}

#[test]
fn extrema_follow_hits() {
    let mut d = Detector::new(4, 4).unwrap();
    for (i, dist) in [5_i64, 2, 9].iter().enumerate() {
        let ray = ray_at(*dist, 1, Heading::Toward, i as i32, 0);
        assert!(d.scanLidar_photon_to_detector(&ray));
    }
    assert_eq!(d.min_distance, 2);
    assert_eq!(d.max_distance, 9);
}

#[test]
fn pixel_counts_match_hit_lists() {
    let mut d = Detector::new(2, 2).unwrap();
    let hits = [(0, 0, 4_i64, 1), (1, 1, 6, 2), (0, 0, 10, 3), (1, 0, -2, 1), (0, 0, 1, 1)];
    for (x, y, dist, c) in hits {
        assert!(d.scanLidar_photon_to_detector(&ray_at(dist, c, Heading::Toward, x, y)));
    }
    for x in 0..2 {
        for y in 0..2 {
            let list = d.pixel_hits(x, y);
            assert_eq!(d.pixel_count(x, y), list.len() as u64);
            let sum: i128 = list.iter().map(|r| r.distance as i128).sum();
            assert_eq!(d.pixel_distance_sum(x, y), sum);
        }
    }
    assert_eq!(
        d.pixel_hits(0, 0),
        vec![
            PhotonRecord { distance: 4, collision_count: 1 },
            PhotonRecord { distance: 10, collision_count: 3 },
            PhotonRecord { distance: 1, collision_count: 1 },
        ]
    );
    assert_eq!(d.pixel_distance_sum(0, 0), 15);
}

#[test]
fn depth_is_mean_rounded_down() {
    let mut d = Detector::new(3, 1).unwrap();
    for dist in [1_i64, 2] {
        d.scanLidar_photon_to_detector(&ray_at(dist, 1, Heading::Toward, 0, 0));
    }
    for dist in [-1_i64, -2] {
        d.scanLidar_photon_to_detector(&ray_at(dist, 1, Heading::Toward, 1, 0));
    }
    d.generate_depth_image();
    assert_eq!(d.depth_at(0, 0), 1);
    assert_eq!(d.depth_at(1, 0), -2);
    assert_eq!(d.depth_at(2, 0), 0);
}

#[test]
fn depth_reduction_is_idempotent() {
    let mut d = Detector::new(2, 2).unwrap();
    d.scanLidar_photon_to_detector(&ray_at(7, 1, Heading::Toward, 1, 1));
    d.scanLidar_photon_to_detector(&ray_at(8, 1, Heading::Toward, 1, 1));
    d.generate_depth_image();
    let first: Vec<i128> = (0..4).map(|i| d.depth_at(i / 2, i % 2)).collect();
    d.generate_depth_image();
    let second: Vec<i128> = (0..4).map(|i| d.depth_at(i / 2, i % 2)).collect();
    assert_eq!(first, second);
    assert_eq!(d.depth_at(1, 1), 7);
}

#[test]
fn flash_accepts_pixel_on_grid() {
    let mut d = Detector::new(4, 3).unwrap();
    assert!(d.flashLidar_photon_to_detector(&ray_at(12, 2, Heading::Toward, -1, -1), 3, 2));
    assert_eq!(d.pixel_count(3, 2), 1);
    assert_eq!(d.pixel_hits(3, 2), vec![PhotonRecord { distance: 12, collision_count: 2 }]);
    assert_eq!(d.min_distance, 12);
    assert_eq!(d.max_distance, 12);
}

#[test]
fn flash_out_of_bounds_changes_nothing() {
    let mut d = Detector::new(4, 3).unwrap();
    let ray = ray_at(12, 1, Heading::Toward, 0, 0);
    for (px, py) in [(-1, 0), (0, -1), (4, 0), (0, 3), (i64::MAX, i64::MIN)] {
        assert!(!d.flashLidar_photon_to_detector(&ray, px, py));
    }
    assert_eq!(total_hits(&d), 0);
    assert_eq!(d.min_distance, NO_HIT_MIN_DISTANCE);
    assert_eq!(d.max_distance, 0);
}

#[test]
fn away_facing_rays_are_rejected_in_every_mode() {
    let mut d = Detector::new(4, 4).unwrap();
    let ray = ray_at(5, 1, Heading::Away, 1, 1);
    assert!(!d.scanLidar_photon_to_detector(&ray));
    assert!(!d.flashLidar_photon_to_detector(&ray, 1, 1));
    assert!(!d.photon_to_detector(&ray, 1, 1));
    assert_eq!(total_hits(&d), 0);
}

#[test]
fn rays_without_collision_are_rejected() {
    let mut d = Detector::new(4, 4).unwrap();
    let ray = ray_at(5, 0, Heading::Toward, 1, 1);
    assert!(!d.scanLidar_photon_to_detector(&ray));
    assert!(!d.flashLidar_photon_to_detector(&ray, 1, 1));
    assert!(!d.photon_to_detector(&ray, 1, 1));
    assert_eq!(total_hits(&d), 0);
}

#[test]
fn scan_out_of_bounds_is_dropped() {
    let mut d = Detector::new(4, 4).unwrap();
    for (cx, cy) in [(-1, 0), (0, -1), (4, 0), (0, 4)] {
        assert!(!d.scanLidar_photon_to_detector(&ray_at(5, 1, Heading::Toward, cx, cy)));
    }
    assert_eq!(total_hits(&d), 0);
}

#[test]
fn transposed_flash_swaps_and_flips() {
    let mut d = Detector::new(4, 3).unwrap();
    let ray = ray_at(9, 1, Heading::Toward, 0, 0);
    // lens pixel (0, 3) lands at (3, 3 - 1 - 0) = (3, 2)
    assert!(d.photon_to_detector(&ray, 0, 3));
    assert_eq!(d.pixel_count(3, 2), 1);
    // lens pixel (2, 1) lands at (1, 0)
    assert!(d.photon_to_detector(&ray, 2, 1));
    assert_eq!(d.pixel_count(1, 0), 1);
    // lens pixel (3, 0) would land at (0, -1): off the grid
    assert!(!d.photon_to_detector(&ray, 3, 0));
    assert_eq!(total_hits(&d), 2);
}

#[test]
fn output_has_one_list_per_pixel() {
    let mut d = Detector::new(3, 2).unwrap();
    d.scanLidar_photon_to_detector(&ray_at(4, 1, Heading::Toward, 2, 1));
    d.scanLidar_photon_to_detector(&ray_at(6, 2, Heading::Toward, 2, 1));
    d.scanLidar_photon_to_detector(&ray_at(1, 1, Heading::Toward, 0, 1));
    let out = d.photon_records();
    assert_eq!(out.len(), 6);
    assert_eq!(out[2 * 2 + 1].len(), 2);
    assert_eq!(out[1], vec![PhotonRecord { distance: 1, collision_count: 1 }]);
    assert_eq!(out.iter().filter(|l| l.is_empty()).count(), 4);
    assert_eq!(d.output_shape(), (3, 2));
}

#[test]
fn output_of_empty_detector_has_all_pixels() {
    let d = Detector::new(5, 7).unwrap();
    let out = d.photon_records();
    assert_eq!(out.len(), 35);
    assert!(out.iter().all(|l| l.is_empty()));
}
