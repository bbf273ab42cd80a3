use junocam::camera::{framelet_parameters, COORD_SCALE, CY_RED_MICRO, FL_MICRO};
use junocam::enums::{Channel, SampleBitMode, JUNO_JUNOCAM_RED};
use junocam::lens::{CylindricalLens, FisheyeEquisolidLens, LatLon, SupportedLens};
use junocam::process::exposure_epoch_micros;

#[test]
fn undistort_approximately_inverts_distort() {
    // 100.0 px and 50.0 px from the principal point, in micropixels.
    let fp = framelet_parameters(Channel::GREEN);
    let (dx, dy) = fp.distort(100 * COORD_SCALE, 50 * COORD_SCALE);
    let (ux, uy) = fp.undistort(dx, dy);
    // The five-iteration refinement is an approximation, not an exact
    // inverse: expect agreement within a thousandth of a pixel.
    let eps = COORD_SCALE / 1000;
    assert!((ux - 100 * COORD_SCALE).abs() < eps, "ux = {}", ux);
    assert!((uy - 50 * COORD_SCALE).abs() < eps, "uy = {}", uy);
}

#[test]
fn distortion_pulls_points_inward() {
    // The leading radial coefficient is negative, so the forward model
    // shrinks radii; the origin is a fixed point.
    let fp = framelet_parameters(Channel::BLUE);
    assert_eq!(fp.distort(0, 0), (0, 0));
    let (dx, dy) = fp.distort(800 * COORD_SCALE, 0);
    assert!(0 < dx && dx < 800 * COORD_SCALE);
    assert_eq!(dy, 0);
}

#[test]
fn xy_to_vector_aims_through_focal_plane() {
    let fp = framelet_parameters(Channel::RED);
    assert_eq!(fp.cy, CY_RED_MICRO);
    let v = fp.xy_to_vector(fp.cx, fp.cy);
    // At the principal point the undistorted offset is zero.
    assert_eq!((v.x, v.y), (0, 0));
    assert_eq!(v.z, FL_MICRO);
    assert_eq!(fp.fl(), FL_MICRO);
}

#[test]
fn vector_to_xy_inverts_xy_to_vector_near_center() {
    let fp = framelet_parameters(Channel::GREEN);
    let x = fp.cx + 40 * COORD_SCALE;
    let y = fp.cy + 25 * COORD_SCALE;
    let v = fp.xy_to_vector(x, y);
    let (bx, by) = fp.vector_to_xy(&v);
    let eps = COORD_SCALE / 100;
    assert!((bx - x).abs() < eps, "bx = {}", bx);
    assert!((by - y).abs() < eps, "by = {}", by);
}

#[test]
fn channel_ids_match_instrument_catalog() {
    assert_eq!(Channel::RED.to_id(), JUNO_JUNOCAM_RED);
    assert_eq!(Channel::GREEN.to_id(), -61502);
    assert_eq!(Channel::BLUE.to_id(), -61501);
    assert_eq!(Channel::METHANE.to_id(), -61504);
}

#[test]
fn sample_bit_mode_parses_known_names() {
    assert_eq!(SampleBitMode::from("SQROOT"), SampleBitMode::SQROOT);
    assert_eq!(SampleBitMode::from("LIN1"), SampleBitMode::LIN1);
    assert_eq!(SampleBitMode::from("LIN8"), SampleBitMode::LIN8);
    assert_eq!(SampleBitMode::from("LIN16"), SampleBitMode::LIN16);
    assert_eq!(SampleBitMode::from("other"), SampleBitMode::UNKNOWN);
}

#[test]
fn pole_direction_maps_onto_raster() {
    // A direction along +z has latitude atan2(1, 0) = 90 degrees.
    let lat_deg = 1.0f64.atan2(0.0).to_degrees();
    assert_eq!(lat_deg, 90.0);
    let lat_micro = (lat_deg * 1e6) as i64;
    let lens = CylindricalLens::new(360, 180, 90_000_000, -90_000_000, 0, 360_000_000);
    let pt = lens.latlon_to_point(&LatLon { lat: lat_micro, lon: 0 });
    // The pole row lands back on the raster after wrap-around.
    assert!(pt.x < 360 && pt.y < 180);
    assert_eq!(pt.y, 0);
    // The equator maps to the middle row.
    let eq = lens.latlon_to_point(&LatLon { lat: 0, lon: 180_000_000 });
    assert_eq!((eq.x, eq.y), (180, 90));
}

#[test]
fn projection_stays_in_range_for_any_longitude() {
    let lens = CylindricalLens::new(100, 50, 90_000_000, -90_000_000, 0, 360_000_000);
    for lon in [-360_000_000i64, -350_000_000, -1, 0, 359_999_999, 360_000_000] {
        for lat in [-90_000_000i64, -1_000_000, 0, 45_000_000, 90_000_000] {
            let pt = lens.latlon_to_point(&LatLon { lat, lon });
            assert!(pt.x < 100, "x out of range for lon {}", lon);
            assert!(pt.y < 50, "y out of range for lat {}", lat);
        }
    }
}

#[test]
fn fisheye_centers_square_field() {
    let lens = FisheyeEquisolidLens::new(100, 80, 13_000_000, 90_000_000);
    let pt = lens.uv_to_point(500_000, 500_000).unwrap();
    // Half the unit field scaled onto the 80-pixel side, offset by the
    // 10-pixel centering margin; the vertical axis is inverted.
    assert_eq!((pt.x, pt.y), (50, 40));
    assert!(lens.uv_to_point(-1, 500_000).is_none());
    assert!(lens.uv_to_point(500_000, 1_000_000).is_none());
}

#[test]
fn lens_names_parse_case_insensitively() {
    assert_eq!(SupportedLens::from("cylindrical"), Some(SupportedLens::Cylindrical));
    assert_eq!(SupportedLens::from("Cylindrical"), Some(SupportedLens::Cylindrical));
    assert_eq!(SupportedLens::from("FISHEYE"), Some(SupportedLens::Fisheye));
    assert_eq!(SupportedLens::from("flat"), None);
}

#[test]
fn exposure_epochs_step_by_corrected_period() {
    // 370.5 ms commanded delay with a 1.5 ms correction: exposure t sits t
    // corrected periods after the corrected start.
    assert_eq!(exposure_epoch_micros(2000, 0, 370_500, 1_500), 2000);
    assert_eq!(exposure_epoch_micros(2000, 1, 370_500, 1_500), 374_000);
    assert_eq!(exposure_epoch_micros(2000, 26, 370_500, 1_500), 2000 + 26 * 372_000);
    assert_eq!(exposure_epoch_micros(0, 3, 100, -40), 180);
}
