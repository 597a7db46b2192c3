use tube_cutter::cut::Cut;
use tube_cutter::gcode::{jog, CutAngle, Gcode, GcodeLine, Pos2D, PositioningMode};

fn commands(gcode: &Gcode) -> Vec<String> {
    gcode.lines.iter().map(|l: &GcodeLine| l.command.clone()).collect()
}

#[test]
fn a_new_program_holds_the_header() {
    let gcode = Gcode::new();
    assert_eq!(
        gcode.get_gcode_string(),
        "G21       (set units to mm) \nG90       (set positioning to absolute) \n"
    );
    assert_eq!(gcode.line_count(), 2);
}

#[test]
fn a_command_without_a_comment_is_a_line_of_its_own() {
    let mut gcode = Gcode { lines: Vec::new() };
    gcode.add_command("?".to_string());
    assert_eq!(gcode.get_gcode_string(), "?\n");
    gcode.add_command("G0 X1".to_string());
    assert_eq!(gcode.get_gcode_string(), "?\nG0 X1\n");
}

#[test]
fn a_comment_follows_its_command_in_brackets() {
    let mut gcode = Gcode { lines: Vec::new() };
    gcode.add_command_comment("G28".to_string(), "go home".to_string());
    assert_eq!(gcode.get_gcode_string(), "G28       (go home) \n");
    assert_eq!(gcode.lines[0].command, "G28");
    assert_eq!(gcode.lines[0].comment, Some("go home".to_string()));
}

#[test]
fn each_operation_writes_its_line() {
    let mut gcode = Gcode { lines: Vec::new() };
    gcode.set_units_to_mm();
    gcode.set_positioning_mode(PositioningMode::Absolute);
    gcode.set_positioning_mode(PositioningMode::Relative);
    gcode.move_xy(&Pos2D::new(52_500, -3_250), 1_000_000);
    gcode.home2D(600_000);
    gcode.dwell(500);
    gcode.dwell(2_000);
    gcode.set_plasma_enabled(true);
    gcode.set_plasma_enabled(false);
    gcode.set_zero();
    let expected = [
        "G21       (set units to mm) ",
        "G90       (set positioning to absolute) ",
        "G91       (set positioning to relative) ",
        "G1 X52.5 Y-3.25 F1000       (move to X: 52.5, Y: -3.25 with feedrate: 1000) ",
        "G1 X0 Y0 F600       (move to X: 0, Y: 0 with feedrate: 600) ",
        "G4 P0.5       (wait 0.5 seconds) ",
        "G4 P2       (wait 2 seconds) ",
        "M3       (set plasma enabled) ",
        "M5       (set plasma disabled) ",
        "G10 P0 L20 X0 Y0 Z0       (set machine zero) ",
    ];
    let mut text = String::new();
    for line in expected.iter() {
        text.push_str(line);
        text.push('\n');
    }
    assert_eq!(gcode.get_gcode_string(), text);
    assert_eq!(gcode.line_count(), expected.len());
}

#[test]
fn lines_stay_in_the_order_of_the_calls() {
    let mut gcode = Gcode { lines: Vec::new() };
    gcode.add_command("a".to_string());
    gcode.add_command("b".to_string());
    gcode.add_command("a".to_string());
    gcode.add_command("a".to_string());
    assert_eq!(commands(&gcode), vec!["a", "b", "a", "a"]);
}

fn straight_cut() -> Cut {
    Cut {
        start_position: Pos2D::new(0, 0),
        tube_width: 25_000,
        end_position: Pos2D::new(0, 0),
        cut_angle: CutAngle::straight(),
        cut_feedrate: 1_000_000,
        pierce_delay: 500,
        pierce_delay_2: 250,
    }
}

#[test]
fn a_split_cut_is_made_from_the_middle_outward() {
    let mut gcode = Gcode { lines: Vec::new() };
    gcode.add_cut(straight_cut());
    assert_eq!(
        commands(&gcode),
        vec![
            "G1 X40 Y0 F1000",
            "G1 X53 Y0 F1000",
            "M3",
            "G4 P0.5",
            "G1 X66 Y0 F1000",
            "M5",
            "G4 P2",
            "G1 X53 Y0 F1000",
            "M3",
            "G4 P0.25",
            "G1 X40 Y0 F1000",
            "M5",
            "G1 X0 Y0 F1000",
        ]
    );
}

#[test]
fn a_split_cut_of_an_even_run_has_its_middle_on_a_half() {
    let mut gcode = Gcode { lines: Vec::new() };
    let mut cut = straight_cut();
    cut.set_tube_width(24_000);
    gcode.add_cut(cut);
    let got = commands(&gcode);
    assert_eq!(got[0], "G1 X40 Y0 F1000");
    assert_eq!(got[1], "G1 X52.5 Y0 F1000");
    assert_eq!(got[4], "G1 X65 Y0 F1000");
    assert_eq!(got[7], "G1 X52.5 Y0 F1000");
}

#[test]
fn an_angled_split_cut_returns_to_the_given_start() {
    let mut gcode = Gcode { lines: Vec::new() };
    let mut cut = straight_cut();
    cut.start_position = Pos2D::new(10_000, 4_000);
    cut.set_cut_angle(CutAngle::new(45_000, 1_000_000));
    gcode.add_cut(cut);
    let got = commands(&gcode);
    assert_eq!(got[0], "G1 X50 Y4 F1000");
    assert_eq!(got[1], "G1 X63 Y15 F1000");
    assert_eq!(got[4], "G1 X76 Y26 F1000");
    assert_eq!(got[10], "G1 X50 Y4 F1000");
    assert_eq!(got[12], "G1 X10 Y4 F1000");
}

#[test]
fn a_cut_switches_the_tool_on_and_off_twice() {
    let angles = [CutAngle::straight(), CutAngle::new(90_000, 0), CutAngle::new(30_000, 1_732_051)];
    for angle in angles.iter() {
        let mut gcode = Gcode::new();
        let mut cut = Cut::new();
        cut.set_cut_angle(*angle);
        cut.start_position = Pos2D::new(-5_000, 12_345);
        gcode.add_cut(cut);
        let switches: Vec<String> =
            commands(&gcode).into_iter().filter(|c| c == "M3" || c == "M5").collect();
        assert_eq!(switches, vec!["M3", "M5", "M3", "M5"]);
    }
}

#[test]
fn the_text_has_one_line_for_each_call() {
    let mut gcode = Gcode::new();
    gcode.set_zero();
    gcode.move_xy(&Pos2D::new(1_000, 2_000), 600_000);
    gcode.dwell(1_500);
    gcode.set_plasma_enabled(true);
    gcode.set_plasma_enabled(false);
    gcode.add_command("?".to_string());
    gcode.add_command_comment("G0".to_string(), "rapid".to_string());
    let text = gcode.get_gcode_string();
    assert_eq!(text.lines().count(), 9);
    assert_eq!(text.matches('\n').count(), 9);
    assert_eq!(gcode.line_count(), 9);
}

#[test]
fn a_program_with_a_cut_has_fifteen_lines() {
    let mut gcode = Gcode::new();
    gcode.add_cut(Cut::new());
    assert_eq!(gcode.get_gcode_string().lines().count(), 15);
    assert_eq!(gcode.line_count(), 15);
}

#[test]
fn a_jog_is_relative_and_metric() {
    assert_eq!(jog(10_000, -2_500), "$J=G91 G21 X10 Y-2.5 F600");
    assert_eq!(jog(0, 0), "$J=G91 G21 X0 Y0 F600");
}
