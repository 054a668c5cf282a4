use kaku::shell::{shell_kind_from_env, ShellKind};

#[test]
fn shell_kinds_from_the_shell_variable() {
    assert_eq!(shell_kind_from_env(Some("/bin/zsh")), ShellKind::Zsh);
    assert_eq!(shell_kind_from_env(Some("/opt/homebrew/bin/fish")), ShellKind::Fish);
    assert_eq!(shell_kind_from_env(Some("/bin/bash")), ShellKind::Unsupported("bash".to_string()));
    assert_eq!(shell_kind_from_env(Some("/usr/bin/zsh/")), ShellKind::Zsh);
    assert_eq!(shell_kind_from_env(Some("")), ShellKind::Unknown);
    assert_eq!(shell_kind_from_env(Some("/bin/..")), ShellKind::Unknown);
    assert_eq!(shell_kind_from_env(None), ShellKind::Unknown);
}

#[test]
fn managed_shells_and_names() {
    assert!(ShellKind::Zsh.is_managed());
    assert!(ShellKind::Fish.is_managed());
    assert!(!ShellKind::Unknown.is_managed());
    assert!(!ShellKind::Unsupported("bash".to_string()).is_managed());
    assert_eq!(ShellKind::Zsh.name(), "zsh");
    assert_eq!(ShellKind::Fish.name(), "fish");
    assert_eq!(ShellKind::Unsupported("nu".to_string()).name(), "nu");
    assert_eq!(ShellKind::Unknown.name(), "unknown");
}
