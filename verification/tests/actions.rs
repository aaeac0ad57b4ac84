use beet_esp::actions::drive_route;
use beet_esp::actions::led_route;
use beet_esp::actions::line_follow_step;
use beet_esp::actions::roomba_step;
use beet_esp::actions::DriveVelocity;
use beet_esp::types::Side;

fn v(linear_mm_s: i32, angular_deg_s: i32) -> DriveVelocity {
    DriveVelocity { linear_mm_s, angular_deg_s }
}

#[test]
fn line_follower_steers_right_over_black() {
    assert_eq!(line_follow_step(500), v(20, -60));
    assert_eq!(line_follow_step(499), v(40, 0));
}

#[test]
fn roomba_spins_away_from_a_near_wall() {
    assert_eq!(roomba_step(199), v(0, -90));
    assert_eq!(roomba_step(0), v(0, -90));
    // A wall exactly at the threshold is not closer than it: drive on.
    assert_eq!(roomba_step(200), v(50, 0));
    assert_eq!(roomba_step(201), v(50, 0));
}

#[test]
fn drive_route_maps_directions() {
    assert_eq!(drive_route(Some("forward")), v(60, 0));
    assert_eq!(drive_route(Some("back")), v(-60, 0));
    assert_eq!(drive_route(Some("left")), v(0, 90));
    assert_eq!(drive_route(Some("right")), v(0, -90));
    assert_eq!(drive_route(Some("stop")), v(0, 0));
    assert_eq!(drive_route(Some("sideways")), v(0, 0));
    assert_eq!(drive_route(None), v(0, 0));
}

#[test]
fn led_route_picks_side_and_state() {
    assert_eq!(led_route(Some("left"), Some("on")), (Side::Left, true));
    assert_eq!(led_route(Some("right"), Some("off")), (Side::Right, false));
    assert_eq!(led_route(None, None), (Side::Right, false));
    assert_eq!(led_route(Some("LEFT"), Some("ON")), (Side::Right, false));
}

use beet_esp::actions::apply_heading;
use beet_esp::actions::DriveStepConfig;
use beet_esp::actions::Heading;

#[test]
fn headings_map_onto_the_drive() {
    let config = DriveStepConfig::default();
    assert_eq!(config.duration_nanos, 800_000_000);
    let step = apply_heading(Heading::Forward, config, true);
    assert_eq!((f32::from_bits(step.linear), f32::from_bits(step.angular)), (60.0, 0.0));
    assert_eq!(step.settle_nanos, 800_000_000);
    let step = apply_heading(Heading::Left, config, true);
    assert_eq!((f32::from_bits(step.linear), f32::from_bits(step.angular)), (0.0, 90.0));
    let step = apply_heading(Heading::Right, config, false);
    assert_eq!(f32::from_bits(step.angular), -90.0);
    assert_eq!(step.settle_nanos, 0);
}
