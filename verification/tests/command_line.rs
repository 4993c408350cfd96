use mci_client::{interval_seconds, parse_args, token_preview, Command, DotEnvStore};

fn args(v: &[&str]) -> Vec<String> {
    v.iter().map(|s| s.to_string()).collect()
}

#[test]
fn defaults_to_the_label() {
    let a = parse_args(&args(&[])).unwrap();
    assert_eq!(a.command, Command::Gui);
    assert_eq!(a.env_path, ".env");
    assert_eq!(a.interval_seconds, None);
}

#[test]
fn reads_options_and_commands() {
    let a = parse_args(&args(&["--interval", "30", "-e", "path\\.env", "json"])).unwrap();
    assert_eq!(a.command, Command::Json);
    assert_eq!(a.env_path, "path\\.env");
    assert_eq!(a.interval_seconds, Some(30));
    assert_eq!(parse_args(&args(&["unused", "-h"])).unwrap().command, Command::Help);
    assert_eq!(parse_args(&args(&["raw"])).unwrap().command, Command::Raw);
    assert_eq!(parse_args(&args(&["test"])).unwrap().command, Command::Test);
    assert_eq!(parse_args(&args(&["-i", "+0"])).unwrap().interval_seconds, Some(0));
}

#[test]
fn refuses_bad_command_lines() {
    assert_eq!(parse_args(&args(&["gui", "json"])).unwrap_err(), "Only one command can be provided");
    assert_eq!(parse_args(&args(&["--env"])).unwrap_err(), "--env requires a path value");
    assert_eq!(parse_args(&args(&["-i"])).unwrap_err(), "-i requires a seconds value");
    assert_eq!(parse_args(&args(&["-i", "-3"])).unwrap_err(), "-i requires a positive integer");
    assert_eq!(parse_args(&args(&["--verbose"])).unwrap_err(), "Unknown option: --verbose");
    assert_eq!(parse_args(&args(&["show"])).unwrap_err(), "Unknown command: show");
}

#[test]
fn polling_interval() {
    let env = DotEnvStore::new(".env", Some("PULL_INTERVAL_SECONDS=45\n"));
    assert_eq!(interval_seconds(Some(5), Some(&env)), 5);
    assert_eq!(interval_seconds(None, Some(&env)), 45);
    assert_eq!(interval_seconds(Some(0), Some(&env)), 10);
    assert_eq!(interval_seconds(None, None), 10);
    let bad = DotEnvStore::new(".env", Some("PULL_INTERVAL_SECONDS=x\n"));
    assert_eq!(interval_seconds(None, Some(&bad)), 10);
}

#[test]
fn token_previews() {
    assert_eq!(token_preview("abc"), "abc");
    assert_eq!(token_preview(&"x".repeat(30)), "x".repeat(20));
}
