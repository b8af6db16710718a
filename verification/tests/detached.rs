use detached_spawn::command::compose_command;
use detached_spawn::command::compose_spawn_command;
use detached_spawn::errors::SpawnError;
use detached_spawn::escape::shell_escape;
use detached_spawn::pid::interpret_shell_outcome;
use detached_spawn::pid::parse_pid;
use detached_spawn::shell::executable_exists;
use detached_spawn::shell::get_default_shell;

#[test]
fn test_shell_escape() {
    assert_eq!(shell_escape("hello"), "'hello'");
    assert_eq!(shell_escape("hello world"), "'hello world'");
    assert_eq!(shell_escape("it's"), "'it'\\''s'");
    assert_eq!(shell_escape(""), "''");
}

#[test]
fn escape_adjacent_quotes() {
    assert_eq!(shell_escape("''"), "''\\'''\\'''");
    assert_eq!(shell_escape("'"), "''\\'''");
}

#[test]
fn escape_quote_and_space_together() {
    assert_eq!(shell_escape("it's a test"), "'it'\\''s a test'");
    assert_eq!(shell_escape("a 'b"), "'a '\\''b'");
}

#[test]
fn escape_metacharacters() {
    assert_eq!(shell_escape("$HOME && rm -rf *"), "'$HOME && rm -rf *'");
    assert_eq!(shell_escape("a|b;c>d"), "'a|b;c>d'");
}

#[test]
fn compose_full_command() {
    let args = vec!["--print".to_string(), "-v".to_string()];
    let envs = vec![("FOO".to_string(), "bar baz".to_string())];
    let cmd = compose_command(
        "/usr/local/bin/cli-tool",
        &args,
        "/tmp/in.jsonl",
        "/tmp/out.jsonl",
        &envs,
    );
    assert_eq!(
        cmd,
        "cat '/tmp/in.jsonl' | FOO='bar baz' nohup '/usr/local/bin/cli-tool' '--print' '-v' \
         >> '/tmp/out.jsonl' 2>&1 & echo $!"
    );
}

#[test]
fn compose_empty_args_and_envs() {
    let args: Vec<String> = Vec::new();
    let envs: Vec<(String, String)> = Vec::new();
    let cmd = compose_command("/bin/tool", &args, "/tmp/in", "/tmp/out", &envs);
    assert_eq!(cmd, "cat '/tmp/in' | nohup '/bin/tool' >> '/tmp/out' 2>&1 & echo $!");
}

#[test]
fn compose_path_with_quote_and_space() {
    let args: Vec<String> = Vec::new();
    let envs: Vec<(String, String)> = Vec::new();
    let cmd = compose_command(
        "/Users/o'brien/Application Support/cli-tool",
        &args,
        "/tmp/in",
        "/tmp/out",
        &envs,
    );
    assert_eq!(
        cmd,
        "cat '/tmp/in' | nohup '/Users/o'\\''brien/Application Support/cli-tool' \
         >> '/tmp/out' 2>&1 & echo $!"
    );
}

#[test]
fn compose_two_env_overrides_keep_order() {
    let args: Vec<String> = Vec::new();
    let envs = vec![
        ("A".to_string(), "1".to_string()),
        ("B".to_string(), "two words".to_string()),
    ];
    let cmd = compose_command("/bin/tool", &args, "in", "out", &envs);
    assert_eq!(cmd, "cat 'in' | A='1' B='two words' nohup '/bin/tool' >> 'out' 2>&1 & echo $!");
}

#[test]
fn compose_spawn_command_valid_paths() {
    let args = vec!["-p".to_string()];
    let envs: Vec<(String, String)> = Vec::new();
    let r = compose_spawn_command(Some("/bin/tool"), &args, Some("in"), Some("out"), &envs);
    let direct = compose_command("/bin/tool", &args, "in", "out", &envs);
    match r {
        Ok(cmd) => assert_eq!(cmd, direct),
        Err(_) => panic!("valid paths must compose"),
    }
}

#[test]
fn compose_spawn_command_invalid_path() {
    let args: Vec<String> = Vec::new();
    let envs: Vec<(String, String)> = Vec::new();
    let r = compose_spawn_command(None, &args, Some("in"), Some("out"), &envs);
    assert!(matches!(r, Err(SpawnError::InvalidPath)));
    let r2 = compose_spawn_command(Some("/bin/tool"), &args, None, Some("out"), &envs);
    assert!(matches!(r2, Err(SpawnError::InvalidPath)));
    let r3 = compose_spawn_command(Some("/bin/tool"), &args, Some("in"), None, &envs);
    assert!(matches!(r3, Err(SpawnError::InvalidPath)));
}

#[test]
fn parse_pid_plain_number() {
    assert!(matches!(parse_pid("1234"), Ok(1234)));
    assert!(matches!(parse_pid("007"), Ok(7)));
    assert!(matches!(parse_pid("0"), Ok(0)));
}

#[test]
fn parse_pid_trims_whitespace() {
    assert!(matches!(parse_pid(" 567 \n"), Ok(567)));
    assert!(matches!(parse_pid("\t89\r\n"), Ok(89)));
}

#[test]
fn parse_pid_largest_value() {
    assert!(matches!(parse_pid("4294967295"), Ok(4294967295)));
    assert!(matches!(parse_pid("4294967296"), Err(_)));
    assert!(matches!(parse_pid("99999999999999999999"), Err(_)));
}

#[test]
fn parse_pid_rejects_malformed() {
    match parse_pid("12a4") {
        Err(SpawnError::PidParseFailure { raw }) => assert_eq!(raw, "12a4"),
        _ => panic!("a non-digit must be rejected"),
    }
    match parse_pid("") {
        Err(SpawnError::PidParseFailure { raw }) => assert_eq!(raw, ""),
        _ => panic!("an empty line must be rejected"),
    }
    match parse_pid("  \n ") {
        Err(SpawnError::PidParseFailure { raw }) => assert_eq!(raw, ""),
        _ => panic!("a blank line must be rejected"),
    }
    assert!(matches!(parse_pid("-5"), Err(_)));
}

#[test]
fn shell_outcome_success_gives_pid() {
    let r = interpret_shell_outcome(true, Some(0), String::new(), "4321\n");
    assert!(matches!(r, Ok(4321)));
}

#[test]
fn shell_outcome_failure_reports_status_and_stderr() {
    let r = interpret_shell_outcome(false, Some(127), "sh: not found".to_string(), "");
    match r {
        Err(SpawnError::ShellFailure { status, stderr }) => {
            assert_eq!(status, Some(127));
            assert_eq!(stderr, "sh: not found");
        }
        _ => panic!("a failed shell must be reported as ShellFailure"),
    }
}

#[test]
fn shell_outcome_success_with_bad_line() {
    let r = interpret_shell_outcome(true, Some(0), String::new(), "no pid here\n");
    match r {
        Err(SpawnError::PidParseFailure { raw }) => assert_eq!(raw, "no pid here"),
        _ => panic!("a malformed identifier line must be rejected"),
    }
}

#[test]
fn default_shell_from_environment_or_fallback() {
    assert_eq!(get_default_shell(Some("/bin/zsh".to_string())), "/bin/zsh");
    assert_eq!(get_default_shell(None), "/bin/sh");
}

#[test]
fn executable_exists_finds_sh() {
    assert!(executable_exists("sh"));
    assert!(!executable_exists("no_such_executable_zzz_detached_spawn"));
}
