use ubuntu_setup_cli::system::{
    command_echo, command_result, join_args, stderr_display, CommandError, ExitReport,
};

fn args(a: &[&str]) -> Vec<String> {
    a.iter().map(|s| s.to_string()).collect()
}

#[test]
fn exit_code_seven_is_reported() {
    let a = args(&["-c", "exit 7"]);
    match command_result(&"sh".to_string(), &a, ExitReport::Exited { code: Some(7) }) {
        Err(CommandError::NonZeroExit { exit_code, program, args }) => {
            assert_eq!(exit_code, 7);
            assert_eq!(program, "sh");
            assert_eq!(args, a);
        }
        other => panic!("unexpected result: {:?}", other),
    }
}

#[test]
fn missing_program_is_a_spawn_failure() {
    let a = args(&["--version"]);
    match command_result(&"no-such-program".to_string(), &a, ExitReport::SpawnFailed) {
        Err(CommandError::SpawnFailed { program, args }) => {
            assert_eq!(program, "no-such-program");
            assert_eq!(args, a);
        }
        other => panic!("unexpected result: {:?}", other),
    }
}

#[test]
fn zero_exit_is_success() {
    let r = command_result(&"true".to_string(), &vec![], ExitReport::Exited { code: Some(0) });
    assert!(r.is_ok());
}

#[test]
fn signal_ended_process_counts_as_minus_one() {
    match command_result(&"x".to_string(), &vec![], ExitReport::Exited { code: None }) {
        Err(CommandError::NonZeroExit { exit_code, .. }) => assert_eq!(exit_code, -1),
        other => panic!("unexpected result: {:?}", other),
    }
}

#[test]
fn echoed_command_line() {
    assert_eq!(join_args(&args(&["install", "-y", "curl"])), "install -y curl");
    assert_eq!(join_args(&vec![]), "");
    assert_eq!(
        command_echo("apt-get", &args(&["update", "-y"])),
        "$ apt-get update -y"
    );
    assert_eq!(command_echo("ls", &vec![]), "$ ls ");
}

#[test]
fn error_stream_lines_are_red() {
    assert_eq!(stderr_display("oops"), "\x1b[31moops\x1b[0m");
}
