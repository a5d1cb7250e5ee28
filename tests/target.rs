use radar_link::{target_footprint, SpreadCell, TargetType};

#[test]
fn only_weather_is_rendered() {
    assert!(TargetType::Weather.is_rendered());
    assert!(!TargetType::Aircraft.is_rendered());
    assert!(!TargetType::GroundClutter.is_rendered());
}

#[test]
fn footprint_wraps_azimuth_and_clamps_low_ranges() {
    let cells = target_footprint(0, 1, 500);
    assert_eq!(cells.len(), 35);
    assert_eq!(cells[0], SpreadCell { azimuth: 358, range: 0, distance_sq: 13 });
    assert_eq!(cells[1], SpreadCell { azimuth: 358, range: 0, distance_sq: 8 });
    assert_eq!(cells[17], SpreadCell { azimuth: 0, range: 1, distance_sq: 0 });
    assert_eq!(cells[34], SpreadCell { azimuth: 2, range: 4, distance_sq: 13 });
}

#[test]
fn footprint_drops_ranges_past_the_last_bin() {
    let cells = target_footprint(359, 498, 500);
    assert_eq!(cells.len(), 25);
    assert!(cells.iter().all(|c| c.range < 500));
    assert_eq!(cells[0].azimuth, 357);
    assert_eq!(cells[24].azimuth, 1);
    assert_eq!(cells[24].range, 499);
    assert_eq!(cells[24].distance_sq, 5);
}
