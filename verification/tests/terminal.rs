use itmo_terminal::commands::HELP_TEXT;
use itmo_terminal::completion::complete;
use itmo_terminal::terminal::{KeyPress, KeyResponse, Terminal};

fn key(name: &str) -> KeyPress {
    KeyPress { key: name.to_string(), ctrl: false, alt: false, meta: false, shift: false }
}

fn press(t: &mut Terminal, name: &str) -> KeyResponse {
    t.handle_key(&key(name))
}

fn type_text(t: &mut Terminal, s: &str) {
    for c in s.chars() {
        press(t, &c.to_string());
    }
}

fn completed(s: &str) -> Option<String> {
    let cs: Vec<char> = s.chars().collect();
    complete(&cs).map(|v| v.into_iter().collect())
}

#[test]
fn typing_fills_the_line() {
    let mut t = Terminal::new();
    type_text(&mut t, "pwd");
    assert_eq!(t.input(), "pwd");
    assert_eq!(t.caret(), 3);
    assert!(t.history().is_empty());
}

#[test]
fn enter_runs_and_records() {
    let mut t = Terminal::new();
    type_text(&mut t, " pwd ");
    let r = press(&mut t, "Enter");
    assert!(!r.prevent_default);
    assert!(r.navigate.is_none());
    assert_eq!(t.input(), "");
    assert_eq!(t.caret(), 0);
    assert_eq!(t.history().len(), 1);
    assert_eq!(t.history()[0].cmd, " pwd ");
    assert_eq!(t.history()[0].out, "/home/root");
    type_text(&mut t, "help");
    press(&mut t, "Enter");
    assert_eq!(t.history().len(), 2);
    assert_eq!(t.history()[1].out, HELP_TEXT);
}

#[test]
fn enter_on_blank_line_does_nothing() {
    let mut t = Terminal::new();
    type_text(&mut t, "   ");
    let r = press(&mut t, "Enter");
    assert!(r.navigate.is_none());
    assert_eq!(t.input(), "   ");
    assert_eq!(t.caret(), 3);
    assert!(t.history().is_empty());
}

#[test]
fn clear_empties_history() {
    let mut t = Terminal::new();
    type_text(&mut t, "whoami");
    press(&mut t, "Enter");
    type_text(&mut t, "clear");
    press(&mut t, "Enter");
    assert!(t.history().is_empty());
    assert_eq!(t.input(), "");
}

#[test]
fn cd_navigates_and_clears() {
    let mut t = Terminal::new();
    type_text(&mut t, "date");
    press(&mut t, "Enter");
    type_text(&mut t, "cd ../players");
    let r = press(&mut t, "Enter");
    assert_eq!(r.navigate.as_deref(), Some("/players"));
    assert!(t.history().is_empty());
    type_text(&mut t, "cd nope");
    let r = press(&mut t, "Enter");
    assert!(r.navigate.is_none());
    assert_eq!(t.history()[0].out, "bash: cd: nope: No such directory");
}

#[test]
fn backspace_and_delete() {
    let mut t = Terminal::new();
    type_text(&mut t, "abc");
    press(&mut t, "ArrowLeft");
    let r = press(&mut t, "Backspace");
    assert!(r.prevent_default);
    assert_eq!(t.input(), "ac");
    assert_eq!(t.caret(), 1);
    press(&mut t, "Delete");
    assert_eq!(t.input(), "a");
    assert_eq!(t.caret(), 1);
    press(&mut t, "Delete");
    assert_eq!(t.input(), "a");
    press(&mut t, "Home");
    press(&mut t, "Backspace");
    assert_eq!(t.input(), "a");
    assert_eq!(t.caret(), 0);
}

#[test]
fn caret_keys() {
    let mut t = Terminal::new();
    type_text(&mut t, "hello");
    assert!(press(&mut t, "Home").prevent_default);
    assert_eq!(t.caret(), 0);
    press(&mut t, "ArrowLeft");
    assert_eq!(t.caret(), 0);
    press(&mut t, "ArrowRight");
    assert_eq!(t.caret(), 1);
    assert!(press(&mut t, "End").prevent_default);
    assert_eq!(t.caret(), 5);
    press(&mut t, "ArrowRight");
    assert_eq!(t.caret(), 5);
    assert!(press(&mut t, "ArrowUp").prevent_default);
    assert_eq!(t.caret(), 5);
    assert_eq!(t.input(), "hello");
}

#[test]
fn insert_in_the_middle() {
    let mut t = Terminal::new();
    type_text(&mut t, "ecoh");
    press(&mut t, "ArrowLeft");
    press(&mut t, "ArrowLeft");
    type_text(&mut t, "h");
    assert_eq!(t.input(), "echoh");
    assert_eq!(t.caret(), 3);
}

#[test]
fn type_then_backspace_restores() {
    let mut t = Terminal::new();
    type_text(&mut t, "ls /home");
    press(&mut t, "ArrowLeft");
    press(&mut t, "ArrowLeft");
    let (before, caret) = (t.input(), t.caret());
    type_text(&mut t, "ж");
    press(&mut t, "Backspace");
    assert_eq!(t.input(), before);
    assert_eq!(t.caret(), caret);
}

#[test]
fn left_right_restore_caret() {
    let mut t = Terminal::new();
    type_text(&mut t, "abcd");
    press(&mut t, "ArrowLeft");
    press(&mut t, "ArrowLeft");
    press(&mut t, "ArrowLeft");
    press(&mut t, "ArrowRight");
    assert_eq!(t.caret(), 2);
    press(&mut t, "ArrowRight");
    press(&mut t, "ArrowLeft");
    assert_eq!(t.caret(), 2);
}

#[test]
fn space_is_typed_and_kept_from_browser() {
    let mut t = Terminal::new();
    let r = press(&mut t, " ");
    assert!(r.prevent_default);
    assert_eq!(t.input(), " ");
    let r = press(&mut t, "x");
    assert!(!r.prevent_default);
}

#[test]
fn unknown_named_keys_do_nothing() {
    let mut t = Terminal::new();
    type_text(&mut t, "ab");
    let r = press(&mut t, "Shift");
    assert!(!r.prevent_default);
    press(&mut t, "F5");
    assert_eq!(t.input(), "ab");
    assert_eq!(t.caret(), 2);
}

#[test]
fn ctrl_c_clears_the_line() {
    let mut t = Terminal::new();
    type_text(&mut t, "echo hi");
    let r = t.handle_key(&KeyPress { key: "c".to_string(), ctrl: true, alt: false, meta: false, shift: false });
    assert!(r.prevent_default);
    assert_eq!(t.input(), "");
    assert_eq!(t.caret(), 0);
}

#[test]
fn other_modified_keys_are_ignored() {
    let mut t = Terminal::new();
    type_text(&mut t, "echo hi");
    for k in [
        KeyPress { key: "c".to_string(), ctrl: true, alt: false, meta: false, shift: true },
        KeyPress { key: "c".to_string(), ctrl: true, alt: true, meta: false, shift: false },
        KeyPress { key: "v".to_string(), ctrl: true, alt: false, meta: false, shift: false },
        KeyPress { key: "Enter".to_string(), ctrl: false, alt: false, meta: true, shift: false },
        KeyPress { key: "c".to_string(), ctrl: false, alt: false, meta: true, shift: false },
    ] {
        let r = t.handle_key(&k);
        assert!(!r.prevent_default);
        assert!(r.navigate.is_none());
        assert_eq!(t.input(), "echo hi");
        assert_eq!(t.caret(), 7);
    }
    assert!(t.history().is_empty());
}

#[test]
fn shift_does_not_count_as_modifier() {
    let mut t = Terminal::new();
    t.handle_key(&KeyPress { key: "A".to_string(), ctrl: false, alt: false, meta: false, shift: true });
    assert_eq!(t.input(), "A");
}

#[test]
fn tab_completes_commands() {
    assert_eq!(completed("").as_deref(), Some("help "));
    assert_eq!(completed("ec").as_deref(), Some("echo "));
    assert_eq!(completed("c").as_deref(), Some("clear "));
    assert_eq!(completed("wh").as_deref(), Some("whoami "));
    assert_eq!(completed("xyz"), None);
}

#[test]
fn tab_completes_paths() {
    assert_eq!(completed("cd ho").as_deref(), Some("cd home "));
    assert_eq!(completed("cd /ho").as_deref(), Some("cd /home "));
    assert_eq!(completed("cd ").as_deref(), Some("cd /home "));
    assert_eq!(completed("cat /home/we").as_deref(), Some("cat /home/welcome.sh "));
    assert_eq!(completed("ls a").as_deref(), Some("ls achievements "));
    assert_eq!(completed("cat ab").as_deref(), Some("cat about.txt "));
    assert_eq!(completed("cat x/i").as_deref(), Some("cat x/info "));
    assert_eq!(completed("cd zz"), None);
}

#[test]
fn tab_ignores_other_lines() {
    assert_eq!(completed("echo he"), None);
    assert_eq!(completed("ls a b"), None);
    assert_eq!(completed("cd  ho"), None);
}

#[test]
fn tab_in_the_terminal() {
    let mut t = Terminal::new();
    type_text(&mut t, "cat /home/ab");
    press(&mut t, "Home");
    let r = press(&mut t, "Tab");
    assert!(r.prevent_default);
    assert_eq!(t.input(), "cat /home/about.txt ");
    assert_eq!(t.caret(), 20);
    let mut u = Terminal::new();
    type_text(&mut u, "zz");
    press(&mut u, "ArrowLeft");
    press(&mut u, "Tab");
    assert_eq!(u.input(), "zz");
    assert_eq!(u.caret(), 1);
}

#[test]
fn tab_only_extends_the_line() {
    for s in ["", "ec", "cd ", "cd /ho", "cat /home/we", "ls a"] {
        let out = completed(s).unwrap();
        assert!(out.starts_with(s), "{}", s);
    }
}

#[test]
fn caret_segments_split_the_line() {
    let mut t = Terminal::new();
    type_text(&mut t, "abcd");
    let s = t.caret_segments();
    assert_eq!((s.before.as_str(), s.active.as_str(), s.after.as_str()), ("abcd", " ", ""));
    press(&mut t, "ArrowLeft");
    let s = t.caret_segments();
    assert_eq!((s.before.as_str(), s.active.as_str(), s.after.as_str()), ("abc", "d", ""));
    press(&mut t, "Home");
    let s = t.caret_segments();
    assert_eq!((s.before.as_str(), s.active.as_str(), s.after.as_str()), ("", "a", "bcd"));
    let e = Terminal::new().caret_segments();
    assert_eq!((e.before.as_str(), e.active.as_str(), e.after.as_str()), ("", " ", ""));
}
