use rshell::builtins::{
    cd_target, clear_sequence, command_line, echo_line, error_message, exit_message, help_text,
    ls_listing, subshell_exit_message, subshell_launch_message,
};
use rshell::editor::completion::Entry;

fn strings(items: &[&str]) -> Vec<String> {
    items.iter().map(|s| s.to_string()).collect()
}

fn entry(name: &str, is_dir: bool) -> Entry {
    Entry { name: name.to_string(), is_dir }
}

#[test]
fn cd_goes_to_the_path_then_home_then_root() {
    assert_eq!(cd_target(&Some("/tmp".to_string()), &Some("/home/a".to_string())), "/tmp");
    assert_eq!(cd_target(&None, &Some("/home/a".to_string())), "/home/a");
    assert_eq!(cd_target(&None, &None), "/");
    assert_eq!(cd_target(&Some(String::new()), &None), "");
}

#[test]
fn echo_joins_its_arguments_with_spaces() {
    assert_eq!(echo_line(&strings(&["a", "b c", "", "d"])), "a b c  d");
    assert_eq!(echo_line(&strings(&["one"])), "one");
    assert_eq!(echo_line(&strings(&[])), "");
}

#[test]
fn the_command_line_of_a_job_is_program_and_arguments() {
    assert_eq!(command_line("sleep", &strings(&["10"])), "sleep 10");
    assert_eq!(command_line("ls", &strings(&[])), "ls ");
    assert_eq!(command_line("cp", &strings(&["a b", "c"])), "cp a b c");
}

#[test]
fn exit_codes_are_written_in_decimal() {
    assert_eq!(exit_message("grep", 1), "grep: exited with code 1");
    assert_eq!(exit_message("x", 0), "x: exited with code 0");
    assert_eq!(exit_message("x", 255), "x: exited with code 255");
    assert_eq!(exit_message("x", -1), "x: exited with code -1");
    assert_eq!(exit_message("x", i32::MAX), "x: exited with code 2147483647");
    assert_eq!(exit_message("x", i32::MIN), "x: exited with code -2147483648");
    for code in [0, 7, 10, 99, 100, 12345, -9, -10, -100] {
        assert_eq!(exit_message("p", code), format!("p: exited with code {}", code));
    }
}

#[test]
fn failures_are_worded_exactly() {
    assert_eq!(error_message("cd", "No such file or directory"), "cd: No such file or directory");
    assert_eq!(error_message("cat: f.txt", "denied"), "cat: f.txt: denied");
    assert_eq!(subshell_exit_message("false", Some(1)), "'false' failed with exit code 1");
    assert_eq!(subshell_exit_message("sleep", None), "'sleep' failed with exit code -1");
    assert_eq!(
        subshell_launch_message("nope", "No such file or directory (os error 2)"),
        "Failed to execute 'nope': No such file or directory (os error 2)"
    );
}

#[test]
fn a_listing_is_sorted_padded_and_four_to_a_line() {
    let entries = vec![
        entry("src", true),
        entry("Cargo.toml", false),
        entry("a-name-of-more-than-twenty-characters", false),
        entry("b", false),
        entry("zz", true),
    ];
    let expected = format!(
        "{:<20}{}{:<20}\x1b[34m{:<20}\x1b[0m\n\x1b[34m{:<20}\x1b[0m\n",
        "Cargo.toml", "a-name-of-more-than-twenty-characters", "b", "src", "zz"
    );
    assert_eq!(ls_listing(&entries), expected);
}

#[test]
fn entries_of_one_name_keep_their_order() {
    let entries = vec![entry("b", true), entry("a", true), entry("b", false), entry("a", false)];
    let expected = format!(
        "\x1b[34m{:<20}\x1b[0m{:<20}\x1b[34m{:<20}\x1b[0m{:<20}\n\n",
        "a", "a", "b", "b"
    );
    assert_eq!(ls_listing(&entries), expected);
    let entries = vec![entry("x", false), entry("x", true), entry("x", false)];
    let expected = format!("{:<20}\x1b[34m{:<20}\x1b[0m{:<20}\n", "x", "x", "x");
    assert_eq!(ls_listing(&entries), expected);
}

#[test]
fn an_empty_listing_is_one_line_break() {
    assert_eq!(ls_listing(&Vec::new()), "\n");
}

#[test]
fn a_full_row_ends_in_a_line_break_of_its_own() {
    let entries: Vec<Entry> = ["d", "c", "b", "a"].iter().map(|n| entry(n, false)).collect();
    let expected = format!("{:<20}{:<20}{:<20}{:<20}\n\n", "a", "b", "c", "d");
    assert_eq!(ls_listing(&entries), expected);
    let entries: Vec<Entry> = (0..9).rev().map(|n| entry(&format!("f{}", n), false)).collect();
    let listing = ls_listing(&entries);
    let lines: Vec<&str> = listing.split('\n').collect();
    assert_eq!(lines.len(), 4);
    assert_eq!(lines[0], format!("{:<20}{:<20}{:<20}{:<20}", "f0", "f1", "f2", "f3"));
    assert_eq!(lines[1], format!("{:<20}{:<20}{:<20}{:<20}", "f4", "f5", "f6", "f7"));
    assert_eq!(lines[2], format!("{:<20}", "f8"));
    assert_eq!(lines[3], "");
}

#[test]
fn names_are_padded_by_characters() {
    let entries = vec![entry("日本語", false), entry("é", true)];
    let expected = format!("\x1b[34m{:<20}\x1b[0m{:<20}\n", "é", "日本語");
    assert_eq!(ls_listing(&entries), expected);
    let twenty = "x".repeat(20);
    assert_eq!(ls_listing(&vec![entry(&twenty, false)]), format!("{}\n", twenty));
    let nineteen = "x".repeat(19);
    assert_eq!(ls_listing(&vec![entry(&nineteen, false)]), format!("{} \n", nineteen));
}

#[test]
fn help_lists_every_built_in() {
    let lines = help_text();
    assert_eq!(lines.len(), 22);
    assert_eq!(lines[0], "Available commands:");
    assert_eq!(lines[1], "  cd [path]       - Change directory");
    assert_eq!(lines[15], "  exit            - Exit shell");
    assert_eq!(lines[16], "");
    assert_eq!(lines[17], "Features:");
    assert_eq!(lines[18], "  - Quotes: echo \"hello world\" or echo 'single quotes'");
    assert_eq!(lines[21], "  - Pipes: command1 | command2");
    for name in ["cd", "pwd", "ls", "cat", "mkdir", "rm", "touch", "echo", "export", "clear",
        "history", "jobs", "fg", "bg", "exit"]
    {
        assert!(lines.iter().any(|l| l.starts_with(&format!("  {} ", name))), "{}", name);
    }
}

#[test]
fn clearing_the_screen_is_two_escape_sequences() {
    assert_eq!(clear_sequence(), "\x1b[2J\x1b[H");
}
