use customaio::console::{
    command_of, header, help, module_file, note_once, parse_command, quiet_requested, select_profile, Command, CYAN,
    RESET, WHITE, YELLOW,
};
use customaio::config::Fan;

#[test]
fn commands_and_their_aliases() {
    assert!(matches!(parse_command(None), Command::Help));
    assert!(matches!(parse_command(Some("silent")), Command::Silent));
    assert!(matches!(parse_command(Some("perf")), Command::Performance));
    assert!(matches!(parse_command(Some("performance")), Command::Performance));
    assert!(matches!(parse_command(Some("status")), Command::Status));
    assert!(matches!(parse_command(Some("lcd")), Command::Service));
    assert!(matches!(parse_command(Some("service")), Command::Service));
    assert!(matches!(parse_command(Some("preview")), Command::Preview));
    assert!(matches!(parse_command(Some("list")), Command::Devices));
    assert!(matches!(parse_command(Some("package")), Command::Package));
    assert!(matches!(parse_command(Some("--help")), Command::Help));
    assert!(matches!(command_of("-h"), Command::Help));
}

#[test]
fn unknown_commands_are_reported() {
    match parse_command(Some("bogus")) {
        Command::Unknown(e) => assert_eq!(e, "unknown command 'bogus'. Try `fan help`."),
        _ => panic!("bogus is not a command"),
    }
    assert!(matches!(parse_command(Some("Silent")), Command::Unknown(_)));
}

#[test]
fn header_lines() {
    let h = header("Status");
    assert_eq!(h.len(), 4);
    assert_eq!(h[0], format!("\n{CYAN}========================================{RESET}"));
    assert_eq!(h[1], format!("{WHITE}             CustomAIO{RESET}"));
    assert_eq!(h[2], format!("{CYAN}========================================{RESET}\n"));
    assert_eq!(h[3], format!("{YELLOW}Status{RESET}\n"));
}

#[test]
fn help_lists_every_command() {
    let h = help();
    assert_eq!(h.len(), 13);
    let text = h.join("\n");
    for cmd in ["fan silent", "fan perf", "fan status", "fan lcd", "fan preview", "fan devices", "fan package", "fan help"] {
        assert!(text.contains(cmd), "{cmd} missing");
    }
    assert!(h[10].ends_with("Show this menu\n"));
}

#[test]
fn quiet_flag() {
    assert!(quiet_requested(&["--quiet".to_string()]));
    assert!(quiet_requested(&["x".to_string(), "-q".to_string()]));
    assert!(!quiet_requested(&["--quieter".to_string()]));
    assert!(!quiet_requested(&[]));
}

#[test]
fn profiles_are_refused_when_fan_control_is_off() {
    let mut fan = Fan::default();
    assert_eq!(select_profile(&fan, "silent").unwrap().pump[0], [20, 60]);
    assert_eq!(select_profile(&fan, "performance").unwrap().pump[0], [20, 70]);
    assert_eq!(select_profile(&fan, "anything").unwrap().pump[0], [20, 70]);
    fan.enabled = false;
    assert_eq!(
        select_profile(&fan, "silent").err(),
        Some("fan control is disabled in config.toml ([fan] enabled = false)".to_string())
    );
}

#[test]
fn repeated_failures_are_noted_once() {
    let mut last = String::new();
    assert!(note_once(&mut last, "LCD update failed - x"));
    assert_eq!(last, "LCD update failed - x");
    assert!(!note_once(&mut last, "LCD update failed - x"));
    assert!(note_once(&mut last, "other"));
    assert!(!note_once(&mut last, "other"));
}

#[test]
fn package_takes_bin_modules_only() {
    assert!(module_file("IntelMSR.bin"));
    assert!(module_file("AMDFamily17.bin"));
    assert!(module_file("a.b.bin"));
    assert!(!module_file(".bin"));
    assert!(!module_file("IntelMSR.bin.txt"));
    assert!(!module_file("readme.txt"));
    assert!(!module_file("bin"));
    assert!(!module_file("IntelMSR.BIN"));
}
