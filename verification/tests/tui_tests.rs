use shell_sync::models::HistoryEntry;
use shell_sync::tui::{apply_host_filter, format_duration, truncate_cwd, App, FilterMode, SearchMode};

fn app(query: &str) -> App {
    App::new(
        query,
        false,
        "host-1".to_string(),
        "sess-1".to_string(),
        "/tmp".to_string(),
    )
}

#[test]
fn search_mode_cycles() {
    assert_eq!(SearchMode::Fuzzy.next(), SearchMode::Prefix);
    assert_eq!(SearchMode::Prefix.next(), SearchMode::Fulltext);
    assert_eq!(SearchMode::Fulltext.next(), SearchMode::Regex);
    assert_eq!(SearchMode::Regex.next(), SearchMode::Fuzzy);
    assert_eq!(SearchMode::Fuzzy.label(), "FUZZY");
}

#[test]
fn filter_mode_cycles() {
    assert_eq!(FilterMode::Global.next(), FilterMode::Host);
    assert_eq!(FilterMode::Host.next(), FilterMode::Session);
    assert_eq!(FilterMode::Session.next(), FilterMode::Directory);
    assert_eq!(FilterMode::Directory.next(), FilterMode::Global);
    assert_eq!(FilterMode::Directory.label(), "DIR");
}

#[test]
fn filter_value_follows_mode() {
    let mut a = app("");
    assert_eq!(a.filter_value(), "");
    a.filter_mode = FilterMode::Host;
    assert_eq!(a.filter_value(), "host-1");
    a.filter_mode = FilterMode::Session;
    assert_eq!(a.filter_value(), "sess-1");
    a.filter_mode = FilterMode::Directory;
    assert_eq!(a.filter_value(), "/tmp");
}

#[test]
fn cursor_editing() {
    let mut a = app("ab");
    assert_eq!(a.cursor, 2);
    a.insert_char('c');
    assert_eq!(a.input, vec!['a', 'b', 'c']);
    a.move_cursor_left();
    a.move_cursor_left();
    a.insert_char('x');
    assert_eq!(a.input, vec!['a', 'x', 'b', 'c']);
    a.delete_char();
    assert_eq!(a.input, vec!['a', 'b', 'c']);
    a.move_cursor_right();
    a.move_cursor_right();
    a.move_cursor_right();
    assert_eq!(a.cursor, 3);
}

fn entry(command: &str, hostname: &str) -> HistoryEntry {
    HistoryEntry {
        id: "x".to_string(),
        command: command.to_string(),
        cwd: "/tmp".to_string(),
        exit_code: 0,
        duration_ms: 5,
        session_id: "s1".to_string(),
        machine_id: "m1".to_string(),
        hostname: hostname.to_string(),
        timestamp: 1,
        shell: "bash".to_string(),
        group_name: "default".to_string(),
    }
}

#[test]
fn selection_and_accept() {
    let mut a = app("");
    a.results = vec![entry("first", "h"), entry("second", "h")];
    a.select_next();
    assert_eq!(a.selected, 1);
    a.select_next();
    assert_eq!(a.selected, 1);
    a.select_previous();
    assert_eq!(a.selected, 0);
    a.accept_selected();
    assert_eq!(a.chosen.as_deref(), Some("first"));
    assert!(a.should_quit);
}

#[test]
fn cancel_chooses_nothing() {
    let mut a = app("");
    a.cancel();
    assert!(a.chosen.is_none());
    assert!(a.should_quit);
}

#[test]
fn host_filter() {
    assert!(apply_host_filter(&entry("x", "h1"), FilterMode::Global, "h2"));
    assert!(apply_host_filter(&entry("x", "h1"), FilterMode::Host, "h1"));
    assert!(!apply_host_filter(&entry("x", "h1"), FilterMode::Host, "h2"));
    assert!(apply_host_filter(&entry("x", "h1"), FilterMode::Host, ""));
}

#[test]
fn truncate_cwd_keeps_tail() {
    assert_eq!(truncate_cwd("/tmp", 30), "/tmp");
    let long = "/home/user/projects/deep/nested/dir";
    let cut = truncate_cwd(long, 10);
    assert_eq!(cut.chars().count(), 10);
    assert!(cut.starts_with("..."));
    assert!(long.ends_with(&cut[3..]));
}

#[test]
fn format_duration_ranges() {
    assert_eq!(format_duration(5), "5ms");
    assert_eq!(format_duration(999), "999ms");
    assert_eq!(format_duration(1234), "1.2s");
    assert_eq!(format_duration(59999), "59.9s");
    assert_eq!(format_duration(61234), "1m1s");
    assert_eq!(format_duration(125000), "2m5s");
}
