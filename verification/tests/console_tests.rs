use carbonthrone::console::{parse_command, parse_u32, ConsoleCommand};

#[test]
fn parse_u32_follows_std() {
    for s in ["0", "7", "+7", "007", "4294967295", "4294967296", "", "+", "-1", "1a", " 1"] {
        assert_eq!(parse_u32(s), s.parse::<u32>().ok(), "input {s:?}");
    }
}

#[test]
fn parse_loop_command() {
    assert_eq!(parse_command("  loop 3 "), ConsoleCommand::SetLoop(3));
    assert_eq!(parse_command("loop   +7"), ConsoleCommand::SetLoop(7));
    assert_eq!(parse_command("loop x"), ConsoleCommand::Unknown("loop x".to_string()));
    assert_eq!(
        parse_command("loop 99999999999"),
        ConsoleCommand::Unknown("loop 99999999999".to_string())
    );
}

#[test]
fn parse_flag_commands() {
    assert_eq!(parse_command("flag set  orin_helped "), ConsoleCommand::FlagSet("orin_helped".to_string()));
    assert_eq!(parse_command("flag clear x"), ConsoleCommand::FlagClear("x".to_string()));
    assert_eq!(parse_command("flag set   "), ConsoleCommand::Unknown("flag set".to_string()));
    assert_eq!(parse_command("flag list"), ConsoleCommand::FlagList);
}

#[test]
fn parse_companion_command() {
    assert_eq!(parse_command("companion none"), ConsoleCommand::SetCompanion(None));
    assert_eq!(parse_command("companion kaleo"), ConsoleCommand::SetCompanion(Some("kaleo".to_string())));
    assert_eq!(parse_command("companion Orin"), ConsoleCommand::Unknown("companion Orin".to_string()));
}

#[test]
fn parse_simple_commands() {
    assert_eq!(parse_command("help"), ConsoleCommand::Help);
    assert_eq!(parse_command(" kill"), ConsoleCommand::DefeatEnemies);
    assert_eq!(parse_command("dance"), ConsoleCommand::Unknown("dance".to_string()));
    assert_eq!(parse_command(""), ConsoleCommand::Unknown(String::new()));
}
