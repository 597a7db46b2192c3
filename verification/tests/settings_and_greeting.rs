use tube_cutter::settings::{CutMethod, CutterSettings};
use tube_cutter::simple::greet;

#[test]
fn the_default_settings_are_split_cuts_without_a_laser() {
    let settings = CutterSettings::default();
    assert_eq!(settings.cut_method, CutMethod::Split);
    assert!(!settings.use_laser);
    assert_eq!(settings.laser_offset_x, 0);
    assert_eq!(settings.laser_offset_y, 0);
}

#[test]
fn stored_settings_are_kept() {
    let stored = CutterSettings {
        cut_method: CutMethod::Straight,
        use_laser: true,
        laser_offset_x: 1_500,
        laser_offset_y: -2_000,
    };
    assert_eq!(CutterSettings::load(Some(stored)), (stored, false));
}

#[test]
fn without_stored_settings_the_default_ones_are_to_be_stored() {
    assert_eq!(CutterSettings::load(None), (CutterSettings::default(), true));
}

#[test]
fn a_name_is_greeted() {
    assert_eq!(greet("Tom".to_string()), "Hello, Tom!");
    assert_eq!(greet(String::new()), "Hello, !");
}
