use drift_lib::scripting::commands::{
    command_from_words, is_float_literal, parse_mission_script, CommandRunner, MissionCommand,
};

fn words(ws: &[&str]) -> Vec<String> {
    ws.iter().map(|w| w.to_string()).collect()
}

#[test]
fn script_gives_each_command_in_order() {
    let cmds = parse_mission_script("TAKEOFF 20\nGOTO 150 180 25\nWAIT 5\nINJECT gps_drift\nCLEAR_FAULTS\nRTH\nLAND\nEMERGENCY_LAND")
        .unwrap();
    assert_eq!(
        cmds,
        vec![
            MissionCommand::Takeoff { altitude: "20".to_string() },
            MissionCommand::Goto { x: "150".to_string(), y: "180".to_string(), altitude: "25".to_string() },
            MissionCommand::Wait { seconds: "5".to_string() },
            MissionCommand::InjectFault { fault_name: "GPS_DRIFT".to_string() },
            MissionCommand::ClearFaults,
            MissionCommand::ReturnHome,
            MissionCommand::Land,
            MissionCommand::EmergencyLand,
        ]
    );
}

#[test]
fn blank_and_comment_lines_give_nothing() {
    let cmds = parse_mission_script("\n   \n# a comment\n// another\n  #indented comment\nLAND\n\n").unwrap();
    assert_eq!(cmds, vec![MissionCommand::Land]);
    assert_eq!(parse_mission_script("").unwrap(), Vec::<MissionCommand>::new());
}

#[test]
fn command_names_are_case_insensitive() {
    let cmds = parse_mission_script("takeoff\nReturn_Home\nwait 2.5").unwrap();
    assert_eq!(
        cmds,
        vec![
            MissionCommand::Takeoff { altitude: "15".to_string() },
            MissionCommand::ReturnHome,
            MissionCommand::Wait { seconds: "2.5".to_string() },
        ]
    );
}

#[test]
fn crlf_lines_and_tabs_are_whitespace() {
    let cmds = parse_mission_script("TAKEOFF\t12\r\nLAND\r\n").unwrap();
    assert_eq!(cmds, vec![MissionCommand::Takeoff { altitude: "12".to_string() }, MissionCommand::Land]);
}

#[test]
fn errors_name_the_line() {
    assert_eq!(parse_mission_script("LAND\nTAKEOFF high").unwrap_err(), "Line 2: invalid altitude");
    assert_eq!(
        parse_mission_script("GOTO 1 2").unwrap_err(),
        "Line 1: GOTO requires x, y, altitude arguments"
    );
    assert_eq!(parse_mission_script("GOTO a 2 3").unwrap_err(), "Line 1: invalid x");
    assert_eq!(parse_mission_script("GOTO 1 b 3").unwrap_err(), "Line 1: invalid y");
    assert_eq!(parse_mission_script("GOTO 1 2 c").unwrap_err(), "Line 1: invalid altitude");
    assert_eq!(parse_mission_script("\n\nWAIT").unwrap_err(), "Line 3: WAIT requires duration in seconds");
    assert_eq!(parse_mission_script("WAIT soon").unwrap_err(), "Line 1: invalid wait duration");
    assert_eq!(
        parse_mission_script("INJECT").unwrap_err(),
        "Line 1: INJECT requires fault name (e.g. GPS_DRIFT, LIDAR_FAILURE)"
    );
    assert_eq!(parse_mission_script("LAND\nfly away").unwrap_err(), "Line 2: unrecognized command 'FLY'");
}

#[test]
fn first_bad_line_wins() {
    let mut script = String::new();
    for _ in 0..11 {
        script.push_str("LAND\n");
    }
    script.push_str("JUMP\nWAIT x\n");
    assert_eq!(parse_mission_script(&script).unwrap_err(), "Line 12: unrecognized command 'JUMP'");
}

#[test]
fn numbers_follow_the_float_grammar() {
    for ok in ["0", "15", "-3.5", "+2", ".5", "5.", "1e3", "2.5E-2", "inf", "-Infinity", "NaN"] {
        assert!(is_float_literal(ok), "{}", ok);
        assert!(ok.parse::<f64>().is_ok());
    }
    for bad in ["", ".", "e5", "1e", "1.2.3", "--1", "12m", "in"] {
        assert!(!is_float_literal(bad), "{}", bad);
        assert!(bad.parse::<f64>().is_err());
    }
}

#[test]
fn command_from_words_dispatches_on_the_name() {
    assert_eq!(
        command_from_words(4, "GOTO", &words(&["1", "2", "3", "extra"])).unwrap(),
        MissionCommand::Goto { x: "1".to_string(), y: "2".to_string(), altitude: "3".to_string() }
    );
    assert_eq!(command_from_words(7, "RTH", &words(&[])).unwrap(), MissionCommand::ReturnHome);
    assert_eq!(
        command_from_words(9, "INJECT", &words(&["lidar_failure"])).unwrap(),
        MissionCommand::InjectFault { fault_name: "LIDAR_FAILURE".to_string() }
    );
    assert_eq!(command_from_words(123, "HOVER", &words(&[])).unwrap_err(), "Line 123: unrecognized command 'HOVER'");
}

#[test]
fn runner_loads_a_script() {
    let mut runner = CommandRunner::new();
    assert!(!runner.is_running);
    assert_eq!(runner.load_script("TAKEOFF 10\nLAND"), Ok(2));
    assert_eq!(runner.commands.len(), 2);
    assert_eq!(runner.current_step, 0);
    assert!(runner.is_running);
    assert_eq!(runner.execution_log, vec!["Loaded script with 2 commands".to_string()]);

    // A bad script leaves the runner as it was.
    assert_eq!(runner.load_script("WAIT"), Err("Line 1: WAIT requires duration in seconds".to_string()));
    assert_eq!(runner.commands.len(), 2);
    assert!(runner.is_running);

    runner.stop();
    assert!(!runner.is_running);
    assert_eq!(runner.commands.len(), 2);

    assert_eq!(runner.load_script("# nothing"), Ok(0));
    assert!(!runner.is_running);
    assert_eq!(runner.execution_log, vec!["Loaded script with 0 commands".to_string()]);

    runner.reset();
    assert!(runner.commands.is_empty());
    assert!(runner.execution_log.is_empty());
    assert_eq!(runner.current_step, 0);
}
