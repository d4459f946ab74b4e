use itmo_terminal::commands::{run_command, CommandOutcome, ABOUT_TEXT, HELP_TEXT, INFO_TEXT, WELCOME_TEXT};
use itmo_terminal::path::normalize_path;

fn run(line: &str) -> CommandOutcome {
    run_command(line).expect("a command that runs")
}

fn printed(line: &str) -> String {
    let o = run(line);
    assert!(o.navigate.is_none());
    o.output.expect("a command that prints")
}

#[test]
fn normalize_resolves_dots() {
    assert_eq!(normalize_path("a/./b/../c"), "/a/c");
    assert_eq!(normalize_path("home"), "/home");
    assert_eq!(normalize_path("/home/"), "/home");
    assert_eq!(normalize_path("//x//y"), "/x/y");
}

#[test]
fn normalize_stays_at_root() {
    assert_eq!(normalize_path(""), "/");
    assert_eq!(normalize_path("/"), "/");
    assert_eq!(normalize_path("../.."), "/");
    assert_eq!(normalize_path("../players"), "/players");
    assert_eq!(normalize_path("."), "/");
}

#[test]
fn normalize_keeps_other_names() {
    assert_eq!(normalize_path("..a/.b/..."), "/..a/.b/...");
    assert_eq!(normalize_path("о/к"), "/о/к");
}

#[test]
fn normalize_is_idempotent_on_examples() {
    for p in ["a/./b/../c", "", "../..", "//x//y/", "home/../players/./x"] {
        let once = normalize_path(p);
        assert_eq!(normalize_path(&once), once);
    }
}

#[test]
fn blank_lines_are_ignored() {
    assert!(run_command("").is_none());
    assert!(run_command("   ").is_none());
    assert!(run_command(" \t\u{a0}\u{3000} ").is_none());
}

#[test]
fn fixed_answers() {
    assert_eq!(printed("help"), HELP_TEXT);
    assert!(HELP_TEXT.starts_with("Available commands:\n  help    - Show this message"));
    assert_eq!(printed("pwd"), "/home/root");
    assert_eq!(printed("whoami"), "root");
    assert_eq!(printed("date"), "Sat Mar 14 2026");
    assert_eq!(printed("  whoami  extra "), "root");
}

#[test]
fn ls_lists_directories() {
    assert_eq!(printed("ls"), "home  achievements  players");
    assert_eq!(printed("ls /home"), "welcome.sh  about.txt");
    assert_eq!(printed("ls home/"), "welcome.sh  about.txt");
    assert_eq!(printed("ls achievements"), "competitions");
    assert_eq!(printed("ls home/../players"), "players");
    assert_eq!(printed("ls /"), "home  achievements  players");
    assert_eq!(printed("ls nowhere"), "home  achievements  players");
}

#[test]
fn cat_prints_files() {
    assert_eq!(printed("cat about.txt"), ABOUT_TEXT);
    assert_eq!(printed("cat /home/about.txt"), ABOUT_TEXT);
    assert_eq!(printed("cat ./info"), INFO_TEXT);
    assert_eq!(printed("cat home/info"), INFO_TEXT);
    assert_eq!(printed("cat welcome.sh"), WELCOME_TEXT);
    assert_eq!(printed("cat /home/./welcome.sh"), "echo \"Welcome to ITMO team!\"");
    assert!(INFO_TEXT.starts_with("[ LINKS ]\n"));
    assert!(ABOUT_TEXT.starts_with("[ О КОМАНДЕ ]\n"));
}

#[test]
fn cat_reports_missing_files() {
    assert_eq!(printed("cat nope"), "cat: nope: No such file or directory");
    assert_eq!(printed("cat ./x/../nope"), "cat: ./x/../nope: No such file or directory");
    assert_eq!(printed("cat"), "cat: : No such file or directory");
}

#[test]
fn clear_clears() {
    let o = run("clear");
    assert!(o.output.is_none());
    assert!(o.navigate.is_none());
}

#[test]
fn echo_joins_words() {
    assert_eq!(printed("echo  hello   world "), "hello world");
    assert_eq!(printed("echo"), "");
    assert_eq!(printed("echo a\tb"), "a b");
}

#[test]
fn cd_opens_pages() {
    for (line, page) in [
        ("cd", "/home"),
        ("cd /home", "/home"),
        ("cd players", "/players"),
        ("cd ../achievements/", "/achievements"),
        ("cd ..", "/"),
        ("cd /", "/"),
    ] {
        let o = run(line);
        assert!(o.output.is_none(), "{}", line);
        assert_eq!(o.navigate.as_deref(), Some(page), "{}", line);
    }
}

#[test]
fn cd_reports_missing_directories() {
    assert_eq!(printed("cd /nowhere"), "bash: cd: /nowhere: No such directory");
    assert_eq!(printed("cd home/about.txt"), "bash: cd: home/about.txt: No such directory");
}

#[test]
fn unknown_commands() {
    assert_eq!(printed("foo"), "bash: foo: command not found");
    assert_eq!(printed("HELP me"), "bash: HELP: command not found");
}
