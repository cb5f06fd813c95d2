use pixelation::ray::{read_raw_data, CollisionRecord, Heading, Ray, RayError};

fn record(collision_count: i32, distance: i64, heading: Heading) -> CollisionRecord {
    CollisionRecord { collision_count, distance, heading, camera_x: 1, camera_y: 2 }
}

#[test]
fn ray_keeps_its_fields() {
    let r = Ray::new(Heading::Toward, 3, 40, 5, 6, 7).unwrap();
    assert_eq!(
        r,
        Ray { distance: 40, collision: 3, toward_detector: true, camera_x: 5, camera_y: 6, line_index: 7 }
    );
    let away = Ray::new(Heading::Away, 3, 40, 5, 6, 7).unwrap();
    assert!(!away.toward_detector);
}

#[test]
fn degenerate_direction_fails() {
    assert_eq!(
        Ray::new(Heading::Degenerate, 1, 4, 0, 0, 0),
        Err(RayError::DegenerateDirection)
    );
    assert_eq!(RayError::DegenerateDirection.describe(), "zero-length or non-finite direction");
}

#[test]
fn zero_collision_records_are_skipped() {
    let recs = vec![
        record(0, 5, Heading::Toward),
        record(0, 5, Heading::Degenerate),
        record(0, 5, Heading::Away),
    ];
    let (rays, failed) = read_raw_data(&recs);
    assert!(rays.is_empty());
    assert!(failed.is_empty());
}

#[test]
fn ingestion_isolates_failures() {
    let recs = vec![
        record(1, 10, Heading::Toward),
        record(2, 20, Heading::Degenerate),
        record(0, 30, Heading::Toward),
        record(3, 40, Heading::Away),
        record(1, 50, Heading::Degenerate),
    ];
    let (rays, failed) = read_raw_data(&recs);
    assert_eq!(rays.len(), 2);
    assert_eq!(rays[0].line_index, 0);
    assert_eq!(rays[0].distance, 10);
    assert!(rays[0].toward_detector);
    assert_eq!(rays[1].line_index, 3);
    assert_eq!(rays[1].collision, 3);
    assert!(!rays[1].toward_detector);
    assert_eq!(failed.iter().map(|f| f.index).collect::<Vec<_>>(), vec![1, 4]);
    assert!(failed.iter().all(|f| f.error == "zero-length or non-finite direction"));
}

#[test]
fn empty_batch_gives_nothing() {
    let (rays, failed) = read_raw_data(&Vec::new());
    assert!(rays.is_empty());
    assert!(failed.is_empty());
}
