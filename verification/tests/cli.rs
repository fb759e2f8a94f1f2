use cogposix::socket::{peer_allowed, private_dir_ok, still_ours};
use cogposix::cli::{
    cli_command, cli_socket, digit_result_ok, parse_byte_list, parse_daemon_args, CliCommand,
    CliError, DaemonArgError, DaemonCommand,
};

fn args(list: &[&str]) -> Vec<String> {
    list.iter().map(|s| s.to_string()).collect()
}

#[test]
fn daemon_lines_select_the_backend() {
    assert_eq!(
        parse_daemon_args(&args(&["--socket", "/run/cog/s"])),
        Ok(DaemonCommand::Serve {
            socket: "/run/cog/s".to_string(),
            stdin_shutdown: false,
            worker: None
        })
    );
    assert_eq!(
        parse_daemon_args(&args(&[
            "--worker-python",
            "/usr/bin/python3",
            "--socket",
            "s/x",
            "--worker-script",
            "w.py",
            "--mnist-model",
            "m.onnx",
            "--shutdown-on-stdin"
        ])),
        Ok(DaemonCommand::Serve {
            socket: "s/x".to_string(),
            stdin_shutdown: true,
            worker: Some((
                "/usr/bin/python3".to_string(),
                "w.py".to_string(),
                "m.onnx".to_string()
            ))
        })
    );
    assert_eq!(parse_daemon_args(&args(&["--help", "--bogus"])), Ok(DaemonCommand::Help));
}

#[test]
fn daemon_line_errors() {
    assert_eq!(parse_daemon_args(&args(&[])), Err(DaemonArgError::NoSocket));
    assert_eq!(parse_daemon_args(&args(&["--socket"])), Err(DaemonArgError::NoSocket));
    assert_eq!(parse_daemon_args(&args(&["--bogus"])), Err(DaemonArgError::Unknown));
    assert_eq!(
        parse_daemon_args(&args(&["--socket", "s", "--mnist-model"])),
        Err(DaemonArgError::NeedsPath("--mnist-model".to_string()))
    );
    assert_eq!(
        parse_daemon_args(&args(&["--worker-script", "--socket", "s"])),
        Err(DaemonArgError::NeedsPath("--worker-script".to_string()))
    );
    assert_eq!(
        parse_daemon_args(&args(&["--socket", "s", "--mnist-model", "m"])),
        Err(DaemonArgError::PartialWorker)
    );
}

#[test]
fn client_lines() {
    assert_eq!(cli_socket(&args(&["--help"])), Ok(None));
    assert_eq!(cli_socket(&args(&["--socket", "s"])), Err(CliError::Usage));
    assert_eq!(cli_socket(&args(&["--sock", "s", "stats"])), Err(CliError::Usage));
    assert_eq!(cli_socket(&args(&["--socket", "s", "stats"])), Ok(Some("s".to_string())));
    assert_eq!(cli_command(&args(&["--socket", "s", "stats"])), Ok(CliCommand::Stats));
    assert_eq!(cli_command(&args(&["--socket", "s", "stats", "x"])), Err(CliError::Usage));
    assert_eq!(
        cli_command(&args(&["--socket", "s", "digit", "in.u8"])),
        Ok(CliCommand::Digit {
            path: "in.u8".to_string()
        })
    );
    assert_eq!(cli_command(&args(&["--socket", "s", "transport-bench"])), Ok(CliCommand::Bench));
    assert_eq!(
        cli_command(&args(&["--socket", "s", "demo"])),
        Ok(CliCommand::Demo {
            data: vec![0, 1, 254, 255]
        })
    );
    assert_eq!(
        cli_command(&args(&["--socket", "s", "demo", "7,+8,009"])),
        Ok(CliCommand::Demo { data: vec![7, 8, 9] })
    );
    assert_eq!(cli_command(&args(&["--socket", "s", "demo", "1,256"])), Err(CliError::BadByte));
    assert_eq!(cli_command(&args(&["--socket", "s", "nothing"])), Err(CliError::Usage));
}

#[test]
fn byte_lists_follow_integer_syntax() {
    assert_eq!(parse_byte_list("0,1,254,255"), Some(vec![0, 1, 254, 255]));
    assert_eq!(parse_byte_list("255"), Some(vec![255]));
    assert_eq!(parse_byte_list("00000000000000000000001"), Some(vec![1]));
    assert_eq!(parse_byte_list(""), None);
    assert_eq!(parse_byte_list("1,"), None);
    assert_eq!(parse_byte_list("+"), None);
    assert_eq!(parse_byte_list("-1"), None);
    assert_eq!(parse_byte_list(" 1"), None);
    assert_eq!(parse_byte_list("99999999999"), None);
    assert!(digit_result_ok(&[9]));
    assert!(!digit_result_ok(&[10]));
    assert!(!digit_result_ok(&[1, 2]));
}

#[test]
fn socket_rules() {
    assert!(private_dir_ok(true, 1000, 1000, 0o700));
    assert!(!private_dir_ok(true, 1000, 1000, 0o755));
    assert!(!private_dir_ok(true, 1001, 1000, 0o700));
    assert!(!private_dir_ok(false, 1000, 1000, 0o700));
    assert!(peer_allowed(Some(5), 5));
    assert!(!peer_allowed(Some(6), 5));
    assert!(!peer_allowed(None, 5));
    assert!(still_ours(true, 1, 2, 1, 2));
    assert!(!still_ours(false, 1, 2, 1, 2));
    assert!(!still_ours(true, 1, 3, 1, 2));
}
