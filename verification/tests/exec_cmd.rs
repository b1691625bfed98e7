use rtx_core::cli::{parse_command, SettingsLs};
use rtx_core::settings::Settings;

#[test]
fn test_exec_ok() {
    let (program, args) = parse_command(
        "/bin/sh",
        &Some(vec![String::from("echo")]),
        &None,
    );
    let res = duct::cmd(program, args).stdout_capture().unchecked().run().unwrap();
    assert!(res.status.success());
}

#[test]
fn test_exec_fail() {
    let (program, args) = parse_command(
        "/bin/sh",
        &Some(vec![String::from("exit"), String::from("1")]),
        &None,
    );
    // `exit` is a shell builtin, not an executable: running it fails
    let _ = duct::cmd(program, args).stdout_capture().unchecked().run().unwrap_err();
}

#[test]
fn test_exec_cd() {
    // exec -C /tmp -- pwd: run the command in another directory
    let (program, args) = parse_command("/bin/sh", &Some(vec![String::from("pwd")]), &None);
    let res = duct::cmd(program, args)
        .dir("/tmp")
        .stdout_capture()
        .unchecked()
        .run()
        .unwrap();
    assert!(res.status.success());
    assert_eq!(String::from_utf8_lossy(&res.stdout).trim(), "/tmp");
}

#[test]
fn test_exec_command_string() {
    // the -c form hands the command string to the shell
    let (program, args) = parse_command("/bin/sh", &None, &Some(String::from("exit 0")));
    assert_eq!(program, "/bin/sh");
    assert_eq!(args, vec![String::from("-c"), String::from("exit 0")]);
    let res = duct::cmd(program, args).unchecked().run().unwrap();
    assert!(res.status.success());
}

#[test]
fn test_settings_ls() {
    let settings = Settings::default();
    let lines = SettingsLs {}.lines(&settings);
    assert_eq!(
        lines,
        vec![
            String::from("always_keep_download = false"),
            String::from("disable_tools = "),
            String::from("experimental = false"),
            String::from("jobs = 4"),
            String::from("legacy_version_file = true"),
            String::from("legacy_version_file_disable_tools = "),
            String::from("raw = false"),
            String::from("verbose = false"),
        ]
    );
}
