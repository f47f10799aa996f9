use llm_adapter::terminal::{get_default_shell, get_shell_args, windows_shells};

/// The default-shell choice with no preference and no environment shell.
#[test]
fn test_get_default_shell_auto() {
    let shell = get_default_shell(None, None);
    assert!(!shell.is_empty(), "Default shell should not be empty");
    assert!(
        shell.contains("sh") || shell.contains("bash") || shell.contains("zsh"),
        "Shell '{}' should be a valid Unix shell",
        shell
    );
}

/// A user-preferred shell is respected.
#[test]
fn test_get_default_shell_with_preference() {
    let shell = get_default_shell(Some("custom-shell"), None);
    assert_eq!(shell, "custom-shell", "Should use user-preferred shell");
}

/// An `auto` preference triggers fallback, never the literal name.
#[test]
fn test_get_default_shell_auto_preference() {
    let shell = get_default_shell(Some("auto"), None);
    assert_ne!(shell, "auto", "Should not return 'auto' as shell name");
}

#[test]
fn test_get_default_shell_uses_environment() {
    let shell = get_default_shell(Some("auto"), Some("/usr/bin/zsh"));
    assert_eq!(shell, "/usr/bin/zsh");
}

#[test]
fn test_get_shell_args() {
    let pwsh_args = get_shell_args("pwsh");
    assert!(
        pwsh_args.contains(&"-NoLogo".to_string()),
        "pwsh should have -NoLogo"
    );
    assert!(
        pwsh_args.contains(&"-NoExit".to_string()),
        "pwsh should have -NoExit"
    );

    let cmd_args = get_shell_args("cmd.exe");
    assert!(cmd_args.is_empty(), "cmd.exe should have no special args");

    let unknown_args = get_shell_args("unknown-shell");
    assert!(unknown_args.is_empty(), "Unknown shell should have no args");
}

#[test]
fn test_windows_shells_constant() {
    let shells = windows_shells();
    assert!(!shells.is_empty(), "WINDOWS_SHELLS should not be empty");

    // Verify expected shells are in the list
    let shell_names: Vec<String> = shells.iter().map(|s| s.command.clone()).collect();
    assert!(
        shell_names.contains(&"pwsh".to_string()),
        "Should include pwsh"
    );
    assert!(
        shell_names.contains(&"powershell".to_string()),
        "Should include powershell"
    );
    assert!(
        shell_names.contains(&"cmd.exe".to_string()),
        "Should include cmd.exe"
    );
}
