use shell_sync::shell::{detect_shell_from, ShellType};

#[test]
fn zsh_extension_sh() {
    assert_eq!(ShellType::Zsh.alias_extension(), "sh");
}

#[test]
fn bash_extension_sh() {
    assert_eq!(ShellType::Bash.alias_extension(), "sh");
}

#[test]
fn fish_extension_fish() {
    assert_eq!(ShellType::Fish.alias_extension(), "fish");
}

#[test]
fn bash_format_simple() {
    assert_eq!(
        ShellType::Bash.format_alias("gs", "git status"),
        "alias gs='git status'"
    );
}

#[test]
fn bash_format_escapes_quotes() {
    assert_eq!(
        ShellType::Bash.format_alias("say", "echo 'hi'"),
        r"alias say='echo '\''hi'\'''"
    );
}

#[test]
fn fish_format_simple() {
    assert_eq!(
        ShellType::Fish.format_alias("gs", "git status"),
        "alias gs 'git status'"
    );
}

#[test]
fn fish_format_escapes_quotes() {
    assert_eq!(
        ShellType::Fish.format_alias("say", "echo 'hi'"),
        r"alias say 'echo \'hi\''"
    );
}

#[test]
fn zsh_source_line_has_guard() {
    let line = ShellType::Zsh.source_line("/tmp/aliases.sh");
    assert!(line.contains("[ -f"));
    assert!(line.contains("&& source"));
    assert!(line.contains("/tmp/aliases.sh"));
}

#[test]
fn fish_source_line_plain() {
    let line = ShellType::Fish.source_line("/tmp/aliases.fish");
    assert_eq!(line, r#"source "/tmp/aliases.fish""#);
    assert!(!line.contains("[ -f"));
}

#[test]
fn detect_shell_from_env() {
    assert_eq!(detect_shell_from("/bin/zsh"), ShellType::Zsh);
    assert_eq!(detect_shell_from("/usr/bin/fish"), ShellType::Fish);
    assert_eq!(detect_shell_from("/bin/bash"), ShellType::Bash);
    assert_eq!(detect_shell_from("/bin/sh"), ShellType::Bash);
    assert_eq!(detect_shell_from(""), ShellType::Bash);
}
