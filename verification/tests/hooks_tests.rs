use shell_sync::hooks::generate_hooks;
use shell_sync::shell::ShellType;

#[test]
fn zsh_hooks_contain_preexec_precmd() {
    let hooks = generate_hooks(ShellType::Zsh, "/tmp/test.sock", "sess-123");
    assert!(hooks.contains("preexec"));
    assert!(hooks.contains("precmd"));
    assert!(hooks.contains("sess-123"));
    assert!(hooks.contains("/tmp/test.sock"));
}

#[test]
fn bash_hooks_contain_debug_trap() {
    let hooks = generate_hooks(ShellType::Bash, "/tmp/test.sock", "sess-123");
    assert!(hooks.contains("DEBUG"));
    assert!(hooks.contains("PROMPT_COMMAND"));
    assert!(hooks.contains("sess-123"));
}

#[test]
fn fish_hooks_contain_events() {
    let hooks = generate_hooks(ShellType::Fish, "/tmp/test.sock", "sess-123");
    assert!(hooks.contains("fish_preexec"));
    assert!(hooks.contains("fish_postexec"));
    assert!(hooks.contains("sess-123"));
}

#[test]
fn hooks_include_socket_path() {
    let socket = "/home/user/.shell-sync/sock";
    for shell in [ShellType::Zsh, ShellType::Bash, ShellType::Fish] {
        let hooks = generate_hooks(shell, socket, "s1");
        assert!(
            hooks.contains(socket),
            "Shell {:?} missing socket path",
            shell
        );
    }
}
