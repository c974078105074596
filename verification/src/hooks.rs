use vstd::prelude::*;

use crate::shell::ShellType;

verus! {

/// The zsh hook script for a session id and a hook-socket path.
pub open spec fn zsh_hooks_text(socket_path: Seq<char>, session_id: Seq<char>) -> Seq<char> {
    "# Shell Sync history hooks for zsh\n\n_shell_sync_session_id=\""@ + session_id + "\"\n_shell_sync_socket=\""@ + socket_path + "\"\n_shell_sync_cmd_start=0\n\n_shell_sync_preexec() {\n    _shell_sync_cmd_start=$EPOCHREALTIME\n    _shell_sync_last_cmd=\"$1\"\n}\n\n_shell_sync_precmd() {\n    local exit_code=$?\n    if [[ -n \"$_shell_sync_last_cmd\" && -S \"$_shell_sync_socket\" ]]; then\n        local end=$EPOCHREALTIME\n        local duration_ms=$(( (${end%.*} - ${_shell_sync_cmd_start%.*}) * 1000 + (10#${end#*.} - 10#${_shell_sync_cmd_start#*.}) / 1000 ))\n        [[ $duration_ms -lt 0 ]] && duration_ms=0\n        local payload\n        payload=$(printf '{\"command\":\"%s\",\"cwd\":\"%s\",\"exit_code\":%d,\"duration_ms\":%d,\"session_id\":\"%s\",\"shell\":\"zsh\"}' \\\n            \"$(echo \"$_shell_sync_last_cmd\" | sed 's/\\\\/\\\\\\\\/g; s/\"/\\\\\"/g')\" \\\n            \"$(pwd | sed 's/\\\\/\\\\\\\\/g; s/\"/\\\\\"/g')\" \\\n            \"$exit_code\" \\\n            \"$duration_ms\" \\\n            \"$_shell_sync_session_id\")\n        echo \"$payload\" | nc -U -w1 \"$_shell_sync_socket\" 2>/dev/null &!\n    fi\n    _shell_sync_last_cmd=\"\"\n}\n\nautoload -Uz add-zsh-hook\nadd-zsh-hook preexec _shell_sync_preexec\nadd-zsh-hook precmd _shell_sync_precmd\n\n# Ctrl+R: interactive history search via shell-sync TUI\n__shell_sync_search() {\n    local selected\n    selected=$(shell-sync search --inline </dev/tty 2>/dev/tty)\n    if [[ -n \"$selected\" ]]; then\n        LBUFFER=\"$selected\"\n        RBUFFER=\"\"\n    fi\n    zle reset-prompt\n}\nzle -N __shell_sync_search\nbindkey '^R' __shell_sync_search\n"@
}

fn generate_zsh_hooks(socket_path: &str, session_id: &str) -> (r: String)
    ensures
        r@ == zsh_hooks_text(socket_path@, session_id@),
{
    let mut s = String::new();
    s.append("# Shell Sync history hooks for zsh\n\n_shell_sync_session_id=\"");
    s.append(session_id);
    s.append("\"\n_shell_sync_socket=\"");
    s.append(socket_path);
    s.append("\"\n_shell_sync_cmd_start=0\n\n_shell_sync_preexec() {\n    _shell_sync_cmd_start=$EPOCHREALTIME\n    _shell_sync_last_cmd=\"$1\"\n}\n\n_shell_sync_precmd() {\n    local exit_code=$?\n    if [[ -n \"$_shell_sync_last_cmd\" && -S \"$_shell_sync_socket\" ]]; then\n        local end=$EPOCHREALTIME\n        local duration_ms=$(( (${end%.*} - ${_shell_sync_cmd_start%.*}) * 1000 + (10#${end#*.} - 10#${_shell_sync_cmd_start#*.}) / 1000 ))\n        [[ $duration_ms -lt 0 ]] && duration_ms=0\n        local payload\n        payload=$(printf '{\"command\":\"%s\",\"cwd\":\"%s\",\"exit_code\":%d,\"duration_ms\":%d,\"session_id\":\"%s\",\"shell\":\"zsh\"}' \\\n            \"$(echo \"$_shell_sync_last_cmd\" | sed 's/\\\\/\\\\\\\\/g; s/\"/\\\\\"/g')\" \\\n            \"$(pwd | sed 's/\\\\/\\\\\\\\/g; s/\"/\\\\\"/g')\" \\\n            \"$exit_code\" \\\n            \"$duration_ms\" \\\n            \"$_shell_sync_session_id\")\n        echo \"$payload\" | nc -U -w1 \"$_shell_sync_socket\" 2>/dev/null &!\n    fi\n    _shell_sync_last_cmd=\"\"\n}\n\nautoload -Uz add-zsh-hook\nadd-zsh-hook preexec _shell_sync_preexec\nadd-zsh-hook precmd _shell_sync_precmd\n\n# Ctrl+R: interactive history search via shell-sync TUI\n__shell_sync_search() {\n    local selected\n    selected=$(shell-sync search --inline </dev/tty 2>/dev/tty)\n    if [[ -n \"$selected\" ]]; then\n        LBUFFER=\"$selected\"\n        RBUFFER=\"\"\n    fi\n    zle reset-prompt\n}\nzle -N __shell_sync_search\nbindkey '^R' __shell_sync_search\n");
    s
}

/// The bash hook script for a session id and a hook-socket path.
pub open spec fn bash_hooks_text(socket_path: Seq<char>, session_id: Seq<char>) -> Seq<char> {
    "# Shell Sync history hooks for bash\n\n_shell_sync_session_id=\""@ + session_id + "\"\n_shell_sync_socket=\""@ + socket_path + "\"\n_shell_sync_cmd_start=0\n_shell_sync_last_cmd=\"\"\n\n_shell_sync_debug_trap() {\n    if [[ -z \"$_shell_sync_last_cmd\" ]]; then\n        _shell_sync_cmd_start=$SECONDS\n        _shell_sync_last_cmd=\"$BASH_COMMAND\"\n    fi\n}\n\n_shell_sync_prompt_command() {\n    local exit_code=$?\n    if [[ -n \"$_shell_sync_last_cmd\" && -S \"$_shell_sync_socket\" ]]; then\n        local end=$SECONDS\n        local duration_ms=$(( (end - _shell_sync_cmd_start) * 1000 ))\n        [[ $duration_ms -lt 0 ]] && duration_ms=0\n        local payload\n        payload=$(printf '{\"command\":\"%s\",\"cwd\":\"%s\",\"exit_code\":%d,\"duration_ms\":%d,\"session_id\":\"%s\",\"shell\":\"bash\"}' \\\n            \"$(echo \"$_shell_sync_last_cmd\" | sed 's/\\\\/\\\\\\\\/g; s/\"/\\\\\"/g')\" \\\n            \"$(pwd | sed 's/\\\\/\\\\\\\\/g; s/\"/\\\\\"/g')\" \\\n            \"$exit_code\" \\\n            \"$duration_ms\" \\\n            \"$_shell_sync_session_id\")\n        echo \"$payload\" | nc -U -w1 \"$_shell_sync_socket\" 2>/dev/null &\n    fi\n    _shell_sync_last_cmd=\"\"\n}\n\ntrap '_shell_sync_debug_trap' DEBUG\nPROMPT_COMMAND=\"_shell_sync_prompt_command${PROMPT_COMMAND:+;$PROMPT_COMMAND}\"\n\n# Ctrl+R: interactive history search via shell-sync TUI\n__shell_sync_search() {\n    local selected\n    selected=$(shell-sync search --inline </dev/tty 2>/dev/tty)\n    if [[ -n \"$selected\" ]]; then\n        READLINE_LINE=\"$selected\"\n        READLINE_POINT=${#READLINE_LINE}\n    fi\n}\nbind -x '\"\\C-r\": __shell_sync_search'\n"@
}

fn generate_bash_hooks(socket_path: &str, session_id: &str) -> (r: String)
    ensures
        r@ == bash_hooks_text(socket_path@, session_id@),
{
    let mut s = String::new();
    s.append("# Shell Sync history hooks for bash\n\n_shell_sync_session_id=\"");
    s.append(session_id);
    s.append("\"\n_shell_sync_socket=\"");
    s.append(socket_path);
    s.append("\"\n_shell_sync_cmd_start=0\n_shell_sync_last_cmd=\"\"\n\n_shell_sync_debug_trap() {\n    if [[ -z \"$_shell_sync_last_cmd\" ]]; then\n        _shell_sync_cmd_start=$SECONDS\n        _shell_sync_last_cmd=\"$BASH_COMMAND\"\n    fi\n}\n\n_shell_sync_prompt_command() {\n    local exit_code=$?\n    if [[ -n \"$_shell_sync_last_cmd\" && -S \"$_shell_sync_socket\" ]]; then\n        local end=$SECONDS\n        local duration_ms=$(( (end - _shell_sync_cmd_start) * 1000 ))\n        [[ $duration_ms -lt 0 ]] && duration_ms=0\n        local payload\n        payload=$(printf '{\"command\":\"%s\",\"cwd\":\"%s\",\"exit_code\":%d,\"duration_ms\":%d,\"session_id\":\"%s\",\"shell\":\"bash\"}' \\\n            \"$(echo \"$_shell_sync_last_cmd\" | sed 's/\\\\/\\\\\\\\/g; s/\"/\\\\\"/g')\" \\\n            \"$(pwd | sed 's/\\\\/\\\\\\\\/g; s/\"/\\\\\"/g')\" \\\n            \"$exit_code\" \\\n            \"$duration_ms\" \\\n            \"$_shell_sync_session_id\")\n        echo \"$payload\" | nc -U -w1 \"$_shell_sync_socket\" 2>/dev/null &\n    fi\n    _shell_sync_last_cmd=\"\"\n}\n\ntrap '_shell_sync_debug_trap' DEBUG\nPROMPT_COMMAND=\"_shell_sync_prompt_command${PROMPT_COMMAND:+;$PROMPT_COMMAND}\"\n\n# Ctrl+R: interactive history search via shell-sync TUI\n__shell_sync_search() {\n    local selected\n    selected=$(shell-sync search --inline </dev/tty 2>/dev/tty)\n    if [[ -n \"$selected\" ]]; then\n        READLINE_LINE=\"$selected\"\n        READLINE_POINT=${#READLINE_LINE}\n    fi\n}\nbind -x '\"\\C-r\": __shell_sync_search'\n");
    s
}

/// The fish hook script for a session id and a hook-socket path.
pub open spec fn fish_hooks_text(socket_path: Seq<char>, session_id: Seq<char>) -> Seq<char> {
    "# Shell Sync history hooks for fish\n\nset -g _shell_sync_session_id \""@ + session_id + "\"\nset -g _shell_sync_socket \""@ + socket_path + "\"\nset -g _shell_sync_cmd_start 0\n\nfunction _shell_sync_preexec --on-event fish_preexec\n    set -g _shell_sync_cmd_start (date +%s)\n    set -g _shell_sync_last_cmd $argv[1]\nend\n\nfunction _shell_sync_postexec --on-event fish_postexec\n    set -l exit_code $status\n    if test -n \"$_shell_sync_last_cmd\"; and test -S \"$_shell_sync_socket\"\n        set -l end_time (date +%s)\n        set -l duration_ms (math \"($end_time - $_shell_sync_cmd_start) * 1000\")\n        if test $duration_ms -lt 0\n            set duration_ms 0\n        end\n        set -l escaped_cmd (string replace -a '\\\\' '\\\\\\\\' -- \"$_shell_sync_last_cmd\" | string replace -a '\"' '\\\\\"')\n        set -l escaped_cwd (string replace -a '\\\\' '\\\\\\\\' -- (pwd) | string replace -a '\"' '\\\\\"')\n        set -l payload (printf '{\"command\":\"%s\",\"cwd\":\"%s\",\"exit_code\":%d,\"duration_ms\":%d,\"session_id\":\"%s\",\"shell\":\"fish\"}' \\\n            \"$escaped_cmd\" \\\n            \"$escaped_cwd\" \\\n            $exit_code \\\n            $duration_ms \\\n            \"$_shell_sync_session_id\")\n        echo \"$payload\" | nc -U -w1 \"$_shell_sync_socket\" 2>/dev/null &\n    end\n    set -g _shell_sync_last_cmd \"\"\nend\n\n# Ctrl+R: interactive history search via shell-sync TUI\nfunction __shell_sync_search\n    set -l selected (shell-sync search --inline </dev/tty 2>/dev/tty)\n    if test -n \"$selected\"\n        commandline -r -- $selected\n    end\n    commandline -f repaint\nend\nbind \\cr __shell_sync_search\n"@
}

fn generate_fish_hooks(socket_path: &str, session_id: &str) -> (r: String)
    ensures
        r@ == fish_hooks_text(socket_path@, session_id@),
{
    let mut s = String::new();
    s.append("# Shell Sync history hooks for fish\n\nset -g _shell_sync_session_id \"");
    s.append(session_id);
    s.append("\"\nset -g _shell_sync_socket \"");
    s.append(socket_path);
    s.append("\"\nset -g _shell_sync_cmd_start 0\n\nfunction _shell_sync_preexec --on-event fish_preexec\n    set -g _shell_sync_cmd_start (date +%s)\n    set -g _shell_sync_last_cmd $argv[1]\nend\n\nfunction _shell_sync_postexec --on-event fish_postexec\n    set -l exit_code $status\n    if test -n \"$_shell_sync_last_cmd\"; and test -S \"$_shell_sync_socket\"\n        set -l end_time (date +%s)\n        set -l duration_ms (math \"($end_time - $_shell_sync_cmd_start) * 1000\")\n        if test $duration_ms -lt 0\n            set duration_ms 0\n        end\n        set -l escaped_cmd (string replace -a '\\\\' '\\\\\\\\' -- \"$_shell_sync_last_cmd\" | string replace -a '\"' '\\\\\"')\n        set -l escaped_cwd (string replace -a '\\\\' '\\\\\\\\' -- (pwd) | string replace -a '\"' '\\\\\"')\n        set -l payload (printf '{\"command\":\"%s\",\"cwd\":\"%s\",\"exit_code\":%d,\"duration_ms\":%d,\"session_id\":\"%s\",\"shell\":\"fish\"}' \\\n            \"$escaped_cmd\" \\\n            \"$escaped_cwd\" \\\n            $exit_code \\\n            $duration_ms \\\n            \"$_shell_sync_session_id\")\n        echo \"$payload\" | nc -U -w1 \"$_shell_sync_socket\" 2>/dev/null &\n    end\n    set -g _shell_sync_last_cmd \"\"\nend\n\n# Ctrl+R: interactive history search via shell-sync TUI\nfunction __shell_sync_search\n    set -l selected (shell-sync search --inline </dev/tty 2>/dev/tty)\n    if test -n \"$selected\"\n        commandline -r -- $selected\n    end\n    commandline -f repaint\nend\nbind \\cr __shell_sync_search\n");
    s
}

/// Generates the shell hook script that captures command history and
/// feeds it to the daemon's local socket, for the given shell.
pub fn generate_hooks(shell: ShellType, socket_path: &str, session_id: &str) -> (r: String)
    ensures
        r@ == (match shell {
            ShellType::Zsh => zsh_hooks_text(socket_path@, session_id@),
            ShellType::Bash => bash_hooks_text(socket_path@, session_id@),
            ShellType::Fish => fish_hooks_text(socket_path@, session_id@),
        }),
{
    match shell {
        ShellType::Zsh => generate_zsh_hooks(socket_path, session_id),
        ShellType::Bash => generate_bash_hooks(socket_path, session_id),
        ShellType::Fish => generate_fish_hooks(socket_path, session_id),
    }
}

} // verus!
