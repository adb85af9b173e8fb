use agent_stream::escape::shell_escape;
use agent_stream::launch::{
    build_bridge_command, build_launch_command, parse_pid_line, windows_to_wsl_path,
};

#[test]
fn test_shell_escape() {
    assert_eq!(shell_escape("hello"), "'hello'");
    assert_eq!(shell_escape("hello world"), "'hello world'");
    assert_eq!(shell_escape("it's"), "'it'\\''s'");
    assert_eq!(shell_escape(""), "''");
}

#[test]
fn shell_escape_metacharacters() {
    assert_eq!(shell_escape("a;rm -rf $HOME"), "'a;rm -rf $HOME'");
    assert_eq!(shell_escape("`date`"), "'`date`'");
    assert_eq!(shell_escape("two  spaces"), "'two  spaces'");
}

#[test]
fn launch_command_plain() {
    let args = vec!["run".to_string(), "--format".to_string()];
    let env: Vec<(String, String)> = Vec::new();
    let cmd = build_launch_command("/usr/bin/agent", &args, "/tmp/in.txt", "/tmp/out.txt", &env);
    assert_eq!(
        cmd,
        "cat '/tmp/in.txt' | nohup '/usr/bin/agent' 'run' '--format' >> '/tmp/out.txt' 2>&1 & echo $!"
    );
}

#[test]
fn launch_command_with_env_and_spaces() {
    let args = vec!["a b".to_string()];
    let env = vec![("KEY".to_string(), "v v".to_string())];
    let cmd = build_launch_command(
        "/Applications/App Support/agent",
        &args,
        "/tmp/i",
        "/tmp/o",
        &env,
    );
    assert_eq!(
        cmd,
        "cat '/tmp/i' | KEY='v v' nohup '/Applications/App Support/agent' 'a b' >> '/tmp/o' 2>&1 & echo $!"
    );
}

#[test]
fn bridge_command_layout() {
    let args = vec!["run".to_string()];
    let env: Vec<(String, String)> = Vec::new();
    let cmd = build_bridge_command("/mnt/c/w", "/home/u/agent", &args, "/mnt/c/i", "/mnt/c/o", &env);
    assert_eq!(
        cmd,
        "cd '/mnt/c/w' && cat '/mnt/c/i' | '/home/u/agent' 'run' >> '/mnt/c/o' 2>&1"
    );
}

#[test]
fn wsl_path_translation() {
    assert_eq!(windows_to_wsl_path("C:\\Users\\me\\file.txt"), "/mnt/c/Users/me/file.txt");
    assert_eq!(windows_to_wsl_path("d:\\data"), "/mnt/d/data");
    assert_eq!(windows_to_wsl_path("relative\\path"), "relative/path");
}

#[test]
fn pid_line_parsing() {
    assert_eq!(parse_pid_line("12345\n"), Some(12345));
    assert_eq!(parse_pid_line("  777  "), Some(777));
    assert_eq!(parse_pid_line(""), None);
    assert_eq!(parse_pid_line("not-a-pid"), None);
    assert_eq!(parse_pid_line("4294967295"), Some(4294967295));
    assert_eq!(parse_pid_line("4294967296"), None);
}
