use tube_cutter::gcode::Pos2D;
use tube_cutter::status::{
    parse_status, parse_status_line, MachineState, MachineStatus, StatusError,
};

fn status(state: MachineState, x: i64, y: i64) -> MachineStatus {
    MachineStatus { position: Pos2D::new(x, y), machine_state: state }
}

#[test]
fn an_idle_report_is_read() {
    let line = "<Idle|MPos:12.500,-3.250,0.000|Bf:35,1023|FS:0,0|Pn:XYZ>";
    assert_eq!(parse_status(line.to_string()), Ok(status(MachineState::Idle, 12_500, -3_250)));
    assert_eq!(parse_status_line(line.as_bytes()), Ok(status(MachineState::Idle, 12_500, -3_250)));
}

#[test]
fn a_new_status_is_idle_at_the_origin() {
    assert_eq!(MachineStatus::new(), status(MachineState::Idle, 0, 0));
}

#[test]
fn every_state_is_known_by_its_name() {
    let names = [
        ("Idle", MachineState::Idle),
        ("Run", MachineState::Run),
        ("Hold", MachineState::Hold),
        ("Jog", MachineState::Jog),
        ("Alarm", MachineState::Alarm),
        ("Door", MachineState::Door),
        ("Check", MachineState::Check),
        ("Home", MachineState::Home),
        ("Sleep", MachineState::Sleep),
        ("Tool", MachineState::Tool),
    ];
    for (name, state) in names.iter() {
        let line = format!("<{}|MPos:1.000,2.000,3.000>", name);
        assert_eq!(parse_status(line), Ok(status(*state, 1_000, 2_000)));
    }
}

#[test]
fn a_name_that_is_not_known_stands_for_idle() {
    assert_eq!(
        parse_status("<Dance|MPos:1.000,2.000,3.000>".to_string()),
        Ok(status(MachineState::Idle, 1_000, 2_000))
    );
    assert_eq!(
        parse_status("<run|MPos:1.000,2.000,3.000>".to_string()),
        Ok(status(MachineState::Idle, 1_000, 2_000))
    );
    assert_eq!(
        parse_status("<RUN|MPos:1.000,2.000>".to_string()),
        Ok(status(MachineState::Idle, 1_000, 2_000))
    );
}

#[test]
fn the_position_may_stand_in_any_field() {
    assert_eq!(
        parse_status("<Run|Bf:35,1023|FS:0,0|MPos:-0.500,7.125,0.000|Pn:XYZ>".to_string()),
        Ok(status(MachineState::Run, -500, 7_125))
    );
}

#[test]
fn the_first_position_field_is_the_one_read() {
    assert_eq!(
        parse_status("<Run|MPos:1.000,2.000|MPos:3.000,4.000>".to_string()),
        Ok(status(MachineState::Run, 1_000, 2_000))
    );
    assert_eq!(
        parse_status("<Run|MPos:oops|MPos:3.000,4.000>".to_string()),
        Err(StatusError::Malformed)
    );
}

#[test]
fn what_follows_the_second_coordinate_is_not_read() {
    assert_eq!(
        parse_status("<Hold|MPos:1.000,2.000,whatever,more>".to_string()),
        Ok(status(MachineState::Hold, 1_000, 2_000))
    );
    assert_eq!(
        parse_status("<Hold|MPos:1.000,2.000,>".to_string()),
        Ok(status(MachineState::Hold, 1_000, 2_000))
    );
    assert_eq!(
        parse_status("<Hold|MPos:1,2>".to_string()),
        Ok(status(MachineState::Hold, 1_000, 2_000))
    );
}

#[test]
fn a_line_without_brackets_is_no_report() {
    for line in ["", "<", ">", "ok", "Idle|MPos:1.000,2.000", "<Idle|MPos:1.000,2.000", "Idle|MPos:1.000,2.000>", " <Idle|MPos:1.000,2.000>", "<Idle|MPos:1.000,2.000> "] {
        assert_eq!(parse_status(line.to_string()), Err(StatusError::NotStatus));
    }
}

#[test]
fn a_report_that_does_not_hold_what_it_should_is_malformed() {
    let lines = [
        "<>",
        "<Idle>",
        "<|MPos:1.000,2.000>",
        "<Idle1|MPos:1.000,2.000>",
        "<Hold:0|MPos:1.000,2.000>",
        "<Idle|Bf:35,1023>",
        "<Idle|MPos:>",
        "<Idle|MPos:1.000>",
        "<Idle|MPos:1.000,>",
        "<Idle|MPos:,2.000>",
        "<Idle|MPos:a,b>",
        "<Idle|MPos:1.000;2.000>",
        "<Idle|MPos: 1.000,2.000>",
        "<Idle|mpos:1.000,2.000>",
        "<Idle|WPos:1.000,2.000>",
        "<Idle MPos:1.000,2.000>",
    ];
    for line in lines.iter() {
        assert_eq!(parse_status(line.to_string()), Err(StatusError::Malformed), "{}", line);
    }
}

#[test]
fn a_line_of_other_letters_is_read_by_its_bytes() {
    assert_eq!(parse_status("<Idlé|MPos:1.000,2.000>".to_string()), Err(StatusError::Malformed));
    assert_eq!(
        parse_status("<Idle|Pn:é|MPos:1.000,2.000>".to_string()),
        Ok(status(MachineState::Idle, 1_000, 2_000))
    );
}

#[test]
fn an_error_says_what_went_wrong() {
    assert_eq!(StatusError::NotStatus.message(), "not a status report");
    assert_eq!(StatusError::Malformed.message(), "malformed status report");
}
