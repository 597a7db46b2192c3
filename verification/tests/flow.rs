use tube_cutter::cut::Cut;
use tube_cutter::gcode::{Gcode, Pos2D};
use tube_cutter::sender::{CommandStatus, FlowEngine, FlowState, MachineCommand, MachineConnection};
use tube_cutter::status::{MachineState, MachineStatus};

fn normal(line: &str) -> MachineCommand {
    MachineCommand::StringCommand(line.to_string())
}

fn low(line: &str) -> MachineCommand {
    MachineCommand::StringCommandLowPriority(line.to_string())
}

fn program(text: &str) -> MachineCommand {
    MachineCommand::GcodeCommand(text.to_string())
}

fn drain(engine: &mut FlowEngine) -> Vec<Vec<u8>> {
    let mut sent = Vec::new();
    loop {
        match engine.next_transmission() {
            Some(bytes) => {
                sent.push(bytes);
                assert!(engine.receive(b"ok\r\n").is_empty());
            }
            None => return sent,
        }
    }
}

#[test]
fn a_new_engine_is_ready_and_has_nothing_to_send() {
    let mut engine = FlowEngine::new();
    assert_eq!(engine.flow_state(), FlowState::Ready);
    assert_eq!(engine.command_status(), CommandStatus::Idle);
    assert_eq!(engine.pending(), 0);
    assert_eq!(engine.machine_status(), MachineStatus::new());
    assert_eq!(engine.next_transmission(), None);
    assert_eq!(engine.flow_state(), FlowState::Ready);
}

#[test]
fn a_line_goes_out_with_a_line_feed() {
    let mut engine = FlowEngine::new();
    assert!(engine.submit(normal("G1 X0 Y0 F1000")));
    assert_eq!(engine.pending(), 1);
    assert_eq!(engine.command_status(), CommandStatus::Waiting);
    assert_eq!(engine.next_transmission(), Some(b"G1 X0 Y0 F1000\n".to_vec()));
    assert_eq!(engine.flow_state(), FlowState::AwaitingAck);
    assert_eq!(engine.pending(), 0);
    assert_eq!(engine.command_status(), CommandStatus::Waiting);
}

#[test]
fn nothing_goes_out_before_the_acknowledgement() {
    let mut engine = FlowEngine::new();
    engine.submit(normal("a"));
    engine.submit(normal("b"));
    engine.submit(normal("c"));
    assert_eq!(engine.next_transmission(), Some(b"a\n".to_vec()));
    assert_eq!(engine.next_transmission(), None);
    assert_eq!(engine.next_transmission(), None);
    engine.submit(normal("d"));
    assert_eq!(engine.next_transmission(), None);
    assert_eq!(engine.pending(), 3);
    assert!(engine.receive(b"ok\r").is_empty());
    assert_eq!(engine.flow_state(), FlowState::Ready);
    assert_eq!(engine.next_transmission(), Some(b"b\n".to_vec()));
    assert_eq!(engine.next_transmission(), None);
    assert!(engine.receive(b"ok\r\nok\r\n").is_empty());
    assert_eq!(engine.next_transmission(), Some(b"c\n".to_vec()));
    assert_eq!(engine.next_transmission(), None);
}

#[test]
fn lines_go_out_in_the_order_in_which_they_came() {
    let mut engine = FlowEngine::new();
    engine.submit(normal("one"));
    engine.submit(program("two\nthree"));
    engine.submit(normal("four"));
    assert_eq!(
        drain(&mut engine),
        vec![b"one\n".to_vec(), b"two\n".to_vec(), b"three\n".to_vec(), b"four\n".to_vec()]
    );
    assert_eq!(engine.command_status(), CommandStatus::Idle);
}

#[test]
fn a_poll_is_dropped_when_something_waits() {
    let mut engine = FlowEngine::new();
    assert!(engine.submit(low("?")));
    assert_eq!(engine.pending(), 1);
    assert!(!engine.submit(low("?")));
    assert_eq!(engine.pending(), 1);
    assert!(engine.submit(normal("G4 P1")));
    assert!(!engine.submit(low("?")));
    assert_eq!(engine.pending(), 2);
    assert_eq!(drain(&mut engine), vec![b"?\n".to_vec(), b"G4 P1\n".to_vec()]);
}

#[test]
fn a_poll_is_taken_when_nothing_waits_though_a_line_is_in_flight() {
    let mut engine = FlowEngine::new();
    engine.submit(normal("G4 P1"));
    assert_eq!(engine.next_transmission(), Some(b"G4 P1\n".to_vec()));
    assert!(engine.submit(low("?")));
    assert_eq!(engine.pending(), 1);
    assert_eq!(engine.next_transmission(), None);
    engine.receive(b"ok\r");
    assert_eq!(engine.next_transmission(), Some(b"?\n".to_vec()));
}

#[test]
fn a_command_of_normal_priority_is_never_dropped() {
    let mut engine = FlowEngine::new();
    for i in 0..50 {
        assert!(engine.submit(normal("x")));
        assert!(engine.submit(program("y")));
        assert_eq!(engine.pending(), 2 * (i + 1));
    }
}

#[test]
fn a_program_is_taken_line_by_line() {
    let mut engine = FlowEngine::new();
    assert!(engine.submit(program("a\nb\n")));
    assert_eq!(engine.pending(), 2);
    assert_eq!(drain(&mut engine), vec![b"a\n".to_vec(), b"b\n".to_vec()]);
    assert!(engine.submit(program("a\nb")));
    assert_eq!(engine.pending(), 2);
    assert_eq!(drain(&mut engine), vec![b"a\n".to_vec(), b"b\n".to_vec()]);
    assert!(engine.submit(program("z")));
    assert_eq!(drain(&mut engine), vec![b"z\n".to_vec()]);
}

#[test]
fn an_empty_program_queues_nothing() {
    let mut engine = FlowEngine::new();
    assert!(engine.submit(program("")));
    assert_eq!(engine.pending(), 0);
    assert_eq!(engine.command_status(), CommandStatus::Idle);
    assert_eq!(engine.next_transmission(), None);
    engine.submit(normal("a"));
    assert!(engine.submit(program("")));
    assert_eq!(engine.pending(), 1);
}

#[test]
fn empty_lines_within_a_program_are_lines() {
    let mut engine = FlowEngine::new();
    engine.submit(program("\n"));
    assert_eq!(drain(&mut engine), vec![b"\n".to_vec()]);
    engine.submit(program("\n\nz"));
    assert_eq!(drain(&mut engine), vec![b"\n".to_vec(), b"\n".to_vec(), b"z\n".to_vec()]);
    engine.submit(program("a\n\n"));
    assert_eq!(drain(&mut engine), vec![b"a\n".to_vec(), b"\n".to_vec()]);
}

#[test]
fn a_program_joins_the_queue_behind_what_waits() {
    let mut engine = FlowEngine::new();
    engine.submit(normal("first"));
    engine.submit(low("?"));
    assert!(engine.submit(program("a\nb\nc\n")));
    assert_eq!(engine.pending(), 4);
    assert_eq!(
        drain(&mut engine),
        vec![b"first\n".to_vec(), b"a\n".to_vec(), b"b\n".to_vec(), b"c\n".to_vec()]
    );
}

#[test]
fn a_single_command_is_not_split() {
    let mut engine = FlowEngine::new();
    engine.submit(normal("a\nb"));
    assert_eq!(engine.pending(), 1);
    assert_eq!(engine.next_transmission(), Some(b"a\nb\n".to_vec()));
}

#[test]
fn a_built_program_goes_out_line_by_line() {
    let mut gcode = Gcode::new();
    gcode.set_plasma_enabled(true);
    let mut engine = FlowEngine::new();
    engine.submit(program(&gcode.get_gcode_string()));
    assert_eq!(engine.pending(), gcode.line_count());
    let sent = drain(&mut engine);
    assert_eq!(
        sent,
        vec![
            b"G21       (set units to mm) \n".to_vec(),
            b"G90       (set positioning to absolute) \n".to_vec(),
            b"M3       (set plasma enabled) \n".to_vec(),
        ]
    );
    assert_eq!(engine.command_status(), CommandStatus::Idle);
}

#[test]
fn a_program_with_a_cut_goes_out_as_fifteen_lines() {
    let mut gcode = Gcode::new();
    gcode.add_cut(Cut::new());
    let mut engine = FlowEngine::new();
    engine.submit(normal("G4 P1"));
    engine.submit(program(&gcode.get_gcode_string()));
    assert_eq!(engine.pending(), 16);
    let sent = drain(&mut engine);
    assert_eq!(sent.len(), 16);
    assert_eq!(sent[0], b"G4 P1\n".to_vec());
    for (line, bytes) in gcode.lines.iter().zip(sent[1..].iter()) {
        assert!(bytes.starts_with(line.command.as_bytes()));
        assert_eq!(bytes.last(), Some(&b'\n'));
        assert_eq!(bytes.iter().filter(|b| **b == b'\n').count(), 1);
    }
}

#[test]
fn an_acknowledgement_may_have_white_space_around_it() {
    for ack in [&b"ok\r"[..], b" ok \r", b"\tok\r", b"\n\nok\n\r", b"o\nk\r"] {
        let mut engine = FlowEngine::new();
        engine.submit(normal("a"));
        engine.next_transmission();
        assert!(engine.receive(ack).is_empty());
        assert_eq!(engine.flow_state(), FlowState::Ready);
    }
}

#[test]
fn other_lines_do_not_acknowledge() {
    for line in [&b"OK\r"[..], b"okay\r", b"o k\r", b"ok", b"ok\n", b"\r", b"error:1\r"] {
        let mut engine = FlowEngine::new();
        engine.submit(normal("a"));
        engine.next_transmission();
        engine.receive(line);
        assert_eq!(engine.flow_state(), FlowState::AwaitingAck);
    }
}

#[test]
fn an_acknowledgement_that_nothing_waits_for_changes_nothing() {
    let mut engine = FlowEngine::new();
    assert!(engine.receive(b"ok\rok\r").is_empty());
    assert_eq!(engine.flow_state(), FlowState::Ready);
    engine.submit(normal("a"));
    assert_eq!(engine.next_transmission(), Some(b"a\n".to_vec()));
    assert_eq!(engine.next_transmission(), None);
}

#[test]
fn a_status_report_replaces_the_status() {
    let mut engine = FlowEngine::new();
    let out = engine.receive(b"<Run|MPos:12.500,-3.250,0.000|Bf:35,1023>\r\n");
    assert!(out.is_empty());
    assert_eq!(
        engine.machine_status(),
        MachineStatus { position: Pos2D::new(12_500, -3_250), machine_state: MachineState::Run }
    );
    engine.receive(b"  <Idle|MPos:0.000,1.000,0.000>  \r\n");
    assert_eq!(
        engine.machine_status(),
        MachineStatus { position: Pos2D::new(0, 1_000), machine_state: MachineState::Idle }
    );
}

#[test]
fn a_status_report_does_not_acknowledge() {
    let mut engine = FlowEngine::new();
    engine.submit(normal("a"));
    engine.next_transmission();
    engine.receive(b"<Run|MPos:1.000,2.000,0.000>\r\n");
    assert_eq!(engine.flow_state(), FlowState::AwaitingAck);
    assert_eq!(engine.next_transmission(), None);
}

#[test]
fn other_lines_are_handed_on_as_they_came() {
    let mut engine = FlowEngine::new();
    let out = engine.receive(b"Grbl 1.1h ['$' for help]\r\n  [MSG:Reset]\r\nok\r\n\r\n");
    assert_eq!(
        out,
        vec![b"Grbl 1.1h ['$' for help]".to_vec(), b"  [MSG:Reset]".to_vec(), b"".to_vec()]
    );
    assert_eq!(engine.machine_status(), MachineStatus::new());
}

#[test]
fn a_malformed_report_is_handed_on_and_the_status_stays() {
    let mut engine = FlowEngine::new();
    engine.receive(b"<Run|MPos:1.000,2.000,0.000>\r");
    let before = engine.machine_status();
    let out = engine.receive(b"<Idle|MPos:1.000>\r<Idle|MPos:x,y>\r<Idle\r");
    assert_eq!(
        out,
        vec![b"<Idle|MPos:1.000>".to_vec(), b"<Idle|MPos:x,y>".to_vec(), b"<Idle".to_vec()]
    );
    assert_eq!(engine.machine_status(), before);
}

#[test]
fn a_line_may_come_in_pieces() {
    let mut engine = FlowEngine::new();
    engine.submit(normal("a"));
    engine.next_transmission();
    assert!(engine.receive(b"o").is_empty());
    assert_eq!(engine.flow_state(), FlowState::AwaitingAck);
    assert!(engine.receive(b"k").is_empty());
    assert!(engine.receive(b"").is_empty());
    assert_eq!(engine.flow_state(), FlowState::AwaitingAck);
    assert!(engine.receive(b"\r").is_empty());
    assert_eq!(engine.flow_state(), FlowState::Ready);
    assert!(engine.receive(b"<Hold|MPos:1.0").is_empty());
    assert!(engine.receive(b"00,2.000>\r").is_empty());
    assert_eq!(engine.machine_status().machine_state, MachineState::Hold);
    assert_eq!(engine.receive(b"hel"), Vec::<Vec<u8>>::new());
    assert_eq!(engine.receive(b"lo\rwor"), vec![b"hello".to_vec()]);
    assert_eq!(engine.receive(b"ld\r"), vec![b"world".to_vec()]);
}

#[test]
fn line_feeds_that_come_in_are_dropped() {
    let mut engine = FlowEngine::new();
    assert_eq!(engine.receive(b"a\nb\r\n\nc\n\r"), vec![b"ab".to_vec(), b"c".to_vec()]);
}

#[test]
fn the_owner_rests_when_nothing_came_in_and_nothing_waits() {
    let mut engine = FlowEngine::new();
    assert!(engine.should_idle(0));
    assert!(!engine.should_idle(5));
    engine.submit(normal("a"));
    assert!(!engine.should_idle(0));
    engine.next_transmission();
    assert!(engine.should_idle(0));
}

#[test]
fn a_connection_that_is_not_made_sends_nothing() {
    let connection = MachineConnection::new();
    assert_eq!(connection.serial_port, "/dev/ttyUSB0");
    assert_eq!(connection.baudrate, 115200);
    assert!(!connection.connected);
    assert!(connection.send_string_command("a".to_string()).is_none());
    assert!(connection.send_string_command_low_priority("a".to_string()).is_none());
    assert!(connection.send_gcode_command("a".to_string()).is_none());
    assert!(connection.home().is_none());
    assert!(connection.poll_status().is_none());
}

#[test]
fn a_connection_is_made_once() {
    let mut connection = MachineConnection::new();
    connection.set_serial_port("/dev/ttyACM0".to_string());
    assert_eq!(connection.serial_port, "/dev/ttyACM0");
    assert!(connection.make_connection());
    assert!(connection.connected);
    assert!(!connection.make_connection());
    assert!(connection.connected);
    assert_eq!(connection.serial_port, "/dev/ttyACM0");
    assert_eq!(connection.baudrate, 115200);
}

#[test]
fn a_made_connection_hands_over_commands() {
    let mut connection = MachineConnection::new();
    connection.make_connection();
    match connection.send_string_command("a".to_string()) {
        Some(MachineCommand::StringCommand(s)) => assert_eq!(s, "a"),
        other => panic!("{:?}", other),
    }
    match connection.send_string_command_low_priority("b".to_string()) {
        Some(MachineCommand::StringCommandLowPriority(s)) => assert_eq!(s, "b"),
        other => panic!("{:?}", other),
    }
    match connection.send_gcode_command("c\nd".to_string()) {
        Some(MachineCommand::GcodeCommand(s)) => assert_eq!(s, "c\nd"),
        other => panic!("{:?}", other),
    }
    match connection.home() {
        Some(MachineCommand::StringCommand(s)) => assert_eq!(s, "G1 X0 Y0 F1000"),
        other => panic!("{:?}", other),
    }
    match connection.poll_status() {
        Some(MachineCommand::StringCommandLowPriority(s)) => assert_eq!(s, "?"),
        other => panic!("{:?}", other),
    }
}

#[test]
fn home_and_poll_pass_through_the_engine() {
    let mut connection = MachineConnection::new();
    connection.make_connection();
    let mut engine = FlowEngine::new();
    assert!(engine.submit(connection.home().unwrap()));
    assert!(!engine.submit(connection.poll_status().unwrap()));
    assert_eq!(drain(&mut engine), vec![b"G1 X0 Y0 F1000\n".to_vec()]);
    assert!(engine.submit(connection.poll_status().unwrap()));
    assert_eq!(drain(&mut engine), vec![b"?\n".to_vec()]);
}
