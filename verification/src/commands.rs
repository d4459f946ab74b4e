//! What one command line typed at the prompt does.

use vstd::prelude::*;
use crate::path::{normalize_path, normalized};
use crate::text::{
    append_chars, chars_are, chars_of, is_space_char, is_word, join, join_chars, lemma_words_are_words,
    lemma_words_of_join, non_empty, split_spaces, split_words, string_of, views, words,
};

verus! {

broadcast use vstd::string::group_string_axioms;

/// The text that `help` prints.
pub const HELP_TEXT: &'static str = "Available commands:\n  help    - Show this message\n  ls      - List directory contents\n  cd      - Change directory\n  cat     - Print file contents\n  pwd     - Print working directory\n  whoami  - Print current user\n  date    - Print current date\n  clear   - Clear terminal output\n  echo    - Display a line of text";

/// The contents of the `info` file.
pub const INFO_TEXT: &'static str = "[ LINKS ]\n• CTFTime:    [LINK]\n• Telegram:   [LINK]\n• Github:     [LINK]";

/// The contents of the `about.txt` file.
pub const ABOUT_TEXT: &'static str = "[ О КОМАНДЕ ]\nНазвание: ITMO team\nУниверситет: ИТМО\nеще что то надо бы добавить\n[ ЦЕЛИ ]\n...";

/// The contents of the `welcome.sh` file.
pub const WELCOME_TEXT: &'static str = "echo \"Welcome to ITMO team!\"";

/// The working directory that `pwd` reports.
pub const HOME_DIR: &'static str = "/home/root";

/// The user that `whoami` reports.
pub const USER_NAME: &'static str = "root";

/// The date that `date` reports.
pub const DATE_TEXT: &'static str = "Sat Mar 14 2026";

/// `s` holds whitespace only (or nothing): such a line is ignored.
pub open spec fn is_blank(s: Seq<char>) -> bool {
    forall|i: int| 0 <= i < s.len() ==> is_space_char(#[trigger] s[i])
}

/// The normalised path of the first argument, or the empty text when there
/// is no argument.
pub open spec fn argument_path(ws: Seq<Seq<char>>) -> Seq<char> {
    if ws.len() > 1 {
        normalized(ws[1])
    } else {
        Seq::empty()
    }
}

/// The first argument as typed, or the empty text when there is none.
pub open spec fn first_argument(ws: Seq<Seq<char>>) -> Seq<char> {
    if ws.len() > 1 {
        ws[1]
    } else {
        Seq::empty()
    }
}

/// What `ls` lists for the directory `p`.
pub open spec fn listing_of(p: Seq<char>) -> Seq<char> {
    if p == "/home"@ {
        "welcome.sh  about.txt"@
    } else if p == "/achievements"@ {
        "competitions"@
    } else if p == "/players"@ {
        "players"@
    } else {
        "home  achievements  players"@
    }
}

/// The contents of the file at `p`, when there is a file there.
pub open spec fn file_text(p: Seq<char>) -> Option<Seq<char>> {
    if p == "/info"@ || p == "/home/info"@ {
        Some(INFO_TEXT@)
    } else if p == "/home/about.txt"@ || p == "/about.txt"@ {
        Some(ABOUT_TEXT@)
    } else if p == "/home/welcome.sh"@ || p == "/welcome.sh"@ {
        Some(WELCOME_TEXT@)
    } else {
        None
    }
}

/// The directories that `cd` can enter; each is a page of the site.
pub open spec fn is_page(p: Seq<char>) -> bool {
    p == "/home"@ || p == "/achievements"@ || p == "/players"@ || p == "/"@
}

/// The effect of the command whose words are `ws` (at least one): the text
/// it prints (`None` when it clears the screen) and the page it opens, if
/// any.
pub open spec fn command_effect(ws: Seq<Seq<char>>) -> (Option<Seq<char>>, Option<Seq<char>>) {
    let name = ws[0];
    if name == "help"@ {
        (Some(HELP_TEXT@), None)
    } else if name == "pwd"@ {
        (Some(HOME_DIR@), None)
    } else if name == "whoami"@ {
        (Some(USER_NAME@), None)
    } else if name == "date"@ {
        (Some(DATE_TEXT@), None)
    } else if name == "ls"@ {
        (Some(listing_of(argument_path(ws))), None)
    } else if name == "cat"@ {
        match file_text(argument_path(ws)) {
            Some(t) => (Some(t), None),
            None => (
                Some("cat: "@ + first_argument(ws) + ": No such file or directory"@),
                None,
            ),
        }
    } else if name == "clear"@ {
        (None, None)
    } else if name == "echo"@ {
        (Some(join(ws.drop_first(), " "@)), None)
    } else if name == "cd"@ {
        let target = if ws.len() > 1 {
            ws[1]
        } else {
            "/home"@
        };
        if is_page(normalized(target)) {
            (None, Some(normalized(target)))
        } else {
            (Some("bash: cd: "@ + target + ": No such directory"@), None)
        }
    } else {
        (Some("bash: "@ + name + ": command not found"@), None)
    }
}

/// The view of an optional string.
pub open spec fn opt_view(o: Option<String>) -> Option<Seq<char>> {
    match o {
        Some(s) => Some(s@),
        None => None,
    }
}

/// What running a command line does.
pub struct CommandOutcome {
    /// The text printed below the command, which the history records
    /// together with the line; `None` when the command clears the history.
    pub output: Option<String>,
    /// The page that the command opens, if any.
    pub navigate: Option<String>,
}

impl View for CommandOutcome {
    type V = (Option<Seq<char>>, Option<Seq<char>>);

    open spec fn view(&self) -> (Option<Seq<char>>, Option<Seq<char>>) {
        (opt_view(self.output), opt_view(self.navigate))
    }
}

/// A line has no words exactly when it is blank.
pub proof fn lemma_no_words_iff_blank(s: Seq<char>)
    ensures
        words(s).len() == 0 <==> is_blank(s),
    decreases s.len(),
{
    if s.len() == 0 {
        assert(split_spaces(s) == seq![Seq::<char>::empty()]);
        assert(seq![Seq::<char>::empty()].drop_last() =~= Seq::<Seq<char>>::empty());
        assert(non_empty(Seq::<Seq<char>>::empty()) == Seq::<Seq<char>>::empty());
    } else {
        let s0 = s.drop_last();
        lemma_no_words_iff_blank(s0);
        crate::text::lemma_split_spaces_len(s0);
        let r = split_spaces(s0);
        assert forall|i: int| 0 <= i < s0.len() implies s0[i] == s[i] by {}
        if is_space_char(s.last()) {
            assert(split_spaces(s) == r.push(Seq::<char>::empty()));
            assert(r.push(Seq::<char>::empty()).drop_last() =~= r);
            assert(words(s) == non_empty(r));
            if is_blank(s0) {
                assert forall|i: int| 0 <= i < s.len() implies is_space_char(#[trigger] s[i]) by {
                    if i < s0.len() {
                        assert(is_space_char(s0[i]));
                    }
                }
            }
            if is_blank(s) {
                assert forall|i: int| 0 <= i < s0.len() implies is_space_char(#[trigger] s0[i]) by {
                    assert(is_space_char(s[i]));
                }
            }
        } else {
            let w = r.last().push(s.last());
            let r2 = r.update(r.len() - 1, w);
            assert(split_spaces(s) == r2);
            assert(r2.last() == w);
            assert(words(s) == non_empty(r2.drop_last()).push(w));
            assert(!is_space_char(s[s.len() - 1]));
        }
    }
}

/// The effect of the command whose words are `ws`.
fn effect_of_words(ws: &Vec<Vec<char>>) -> (res: CommandOutcome)
    requires
        ws@.len() >= 1,
    ensures
        res@ == command_effect(views(ws@)),
{
    let ghost w = views(ws@);
    let name = &ws[0];
    assert(w[0] == name@);
    let print = |text: &str| -> (r: CommandOutcome)
        ensures
            r@ == (Some(text@), None::<Seq<char>>),
        { CommandOutcome { output: Some(string_of(chars_of(text).as_slice())), navigate: None } };
    if chars_are(name, "help") {
        print(HELP_TEXT)
    } else if chars_are(name, "pwd") {
        print(HOME_DIR)
    } else if chars_are(name, "whoami") {
        print(USER_NAME)
    } else if chars_are(name, "date") {
        print(DATE_TEXT)
    } else if chars_are(name, "ls") {
        let p = argument_path_of(ws);
        let out = if chars_are(p.as_slice(), "/home") {
            "welcome.sh  about.txt"
        } else if chars_are(p.as_slice(), "/achievements") {
            "competitions"
        } else if chars_are(p.as_slice(), "/players") {
            "players"
        } else {
            "home  achievements  players"
        };
        print(out)
    } else if chars_are(name, "cat") {
        let p = argument_path_of(ws);
        if chars_are(p.as_slice(), "/info") || chars_are(p.as_slice(), "/home/info") {
            print(INFO_TEXT)
        } else if chars_are(p.as_slice(), "/home/about.txt") || chars_are(p.as_slice(), "/about.txt") {
            print(ABOUT_TEXT)
        } else if chars_are(p.as_slice(), "/home/welcome.sh") || chars_are(p.as_slice(), "/welcome.sh") {
            print(WELCOME_TEXT)
        } else {
            let mut out = chars_of("cat: ");
            if ws.len() > 1 {
                append_chars(&mut out, ws[1].as_slice());
            }
            let tail = chars_of(": No such file or directory");
            append_chars(&mut out, tail.as_slice());
            assert(out@ =~= "cat: "@ + first_argument(w) + ": No such file or directory"@);
            CommandOutcome { output: Some(string_of(out.as_slice())), navigate: None }
        }
    } else if chars_are(name, "clear") {
        CommandOutcome { output: None, navigate: None }
    } else if chars_are(name, "echo") {
        let mut rest: Vec<Vec<char>> = Vec::new();
        let n = ws.len();
        for i in 1..n
            invariant
                n == ws@.len(),
                w == views(ws@),
                views(rest@) =~= w.drop_first().take(i - 1),
        {
            assert(w.drop_first().take(i as int) =~= w.drop_first().take(i - 1).push(w[i as int]));
            rest.push(ws[i].clone());
        }
        assert(w.drop_first().take(n - 1) =~= w.drop_first());
        let sp = chars_of(" ");
        let out = join_chars(&rest, sp.as_slice());
        CommandOutcome { output: Some(string_of(out.as_slice())), navigate: None }
    } else if chars_are(name, "cd") {
        let target = if ws.len() > 1 {
            ws[1].clone()
        } else {
            chars_of("/home")
        };
        let p = chars_of(normalize_path(string_of(target.as_slice()).as_str()).as_str());
        if chars_are(p.as_slice(), "/home") || chars_are(p.as_slice(), "/achievements")
            || chars_are(p.as_slice(), "/players") || chars_are(p.as_slice(), "/") {
            CommandOutcome { output: None, navigate: Some(string_of(p.as_slice())) }
        } else {
            let mut out = chars_of("bash: cd: ");
            append_chars(&mut out, target.as_slice());
            let tail = chars_of(": No such directory");
            append_chars(&mut out, tail.as_slice());
            CommandOutcome { output: Some(string_of(out.as_slice())), navigate: None }
        }
    } else {
        let mut out = chars_of("bash: ");
        append_chars(&mut out, name.as_slice());
        let tail = chars_of(": command not found");
        append_chars(&mut out, tail.as_slice());
        CommandOutcome { output: Some(string_of(out.as_slice())), navigate: None }
    }
}

/// The normalised path of the first argument, or nothing when there is no
/// argument.
fn argument_path_of(ws: &Vec<Vec<char>>) -> (res: Vec<char>)
    requires
        ws@.len() >= 1,
    ensures
        res@ == argument_path(views(ws@)),
{
    if ws.len() > 1 {
        assert(views(ws@)[1] == ws@[1]@);
        chars_of(normalize_path(string_of(ws[1].as_slice()).as_str()).as_str())
    } else {
        Vec::new()
    }
}

/// Runs the command line `line`: `None` when the line is blank, which the
/// terminal ignores; otherwise what the command prints and which page it
/// opens.
pub fn run_command(line: &str) -> (res: Option<CommandOutcome>)
    ensures
        res is None <==> is_blank(line@),
        res matches Some(o) ==> o@ == command_effect(words(line@)),
{
    proof {
        lemma_no_words_iff_blank(line@);
    }
    let cs = chars_of(line);
    let ws = split_words(cs.as_slice());
    if ws.len() == 0 {
        None
    } else {
        Some(effect_of_words(&ws))
    }
}

/// `echo` prints all of its arguments, in order, separated by single
/// spaces: the words of what it prints are exactly the words that follow
/// `echo` on the line, however many there are, and it opens no page.
pub proof fn lemma_echo_prints_arguments(line: Seq<char>)
    requires
        words(line).len() >= 1,
        words(line)[0] == "echo"@,
    ensures
        command_effect(words(line)).0 == Some(join(words(line).drop_first(), seq![' '])),
        words(command_effect(words(line)).0->0) == words(line).drop_first(),
        command_effect(words(line)).1 is None,
{
    reveal_strlit("echo");
    reveal_strlit("help");
    reveal_strlit("pwd");
    reveal_strlit("whoami");
    reveal_strlit("date");
    reveal_strlit("ls");
    reveal_strlit("cat");
    reveal_strlit("clear");
    reveal_strlit(" ");
    let ws = words(line);
    assert(ws[0] != "help"@ && ws[0] != "pwd"@ && ws[0] != "whoami"@ && ws[0] != "date"@
        && ws[0] != "ls"@ && ws[0] != "cat"@ && ws[0] != "clear"@) by {
        assert(ws[0][0] == 'e');
        assert("help"@[0] == 'h');
        assert("pwd"@[0] == 'p');
        assert("whoami"@[0] == 'w');
        assert("date"@[0] == 'd');
        assert("ls"@[0] == 'l');
        assert("cat"@[0] == 'c');
        assert("clear"@[0] == 'c');
    }
    assert(" "@ =~= seq![' ']);
    lemma_words_are_words(line);
    let args = ws.drop_first();
    assert forall|i: int| 0 <= i < args.len() implies is_word(#[trigger] args[i]) by {
        assert(args[i] == ws[i + 1]);
    }
    lemma_words_of_join(args);
}

proof fn lemma_command_names_differ()
    ensures
        "help"@ != "pwd"@,
        "help"@ != "whoami"@,
        "help"@ != "date"@,
        "help"@ != "ls"@,
        "help"@ != "cat"@,
        "help"@ != "clear"@,
        "help"@ != "echo"@,
        "help"@ != "cd"@,
        "pwd"@ != "whoami"@,
        "pwd"@ != "date"@,
        "pwd"@ != "ls"@,
        "pwd"@ != "cat"@,
        "pwd"@ != "clear"@,
        "pwd"@ != "echo"@,
        "pwd"@ != "cd"@,
        "whoami"@ != "date"@,
        "whoami"@ != "ls"@,
        "whoami"@ != "cat"@,
        "whoami"@ != "clear"@,
        "whoami"@ != "echo"@,
        "whoami"@ != "cd"@,
        "date"@ != "ls"@,
        "date"@ != "cat"@,
        "date"@ != "clear"@,
        "date"@ != "echo"@,
        "date"@ != "cd"@,
        "ls"@ != "cat"@,
        "ls"@ != "clear"@,
        "ls"@ != "echo"@,
        "ls"@ != "cd"@,
        "cat"@ != "clear"@,
        "cat"@ != "echo"@,
        "cat"@ != "cd"@,
        "clear"@ != "echo"@,
        "clear"@ != "cd"@,
        "echo"@ != "cd"@,
{
    reveal_strlit("help");
    reveal_strlit("pwd");
    reveal_strlit("whoami");
    reveal_strlit("date");
    reveal_strlit("ls");
    reveal_strlit("cat");
    reveal_strlit("clear");
    reveal_strlit("echo");
    reveal_strlit("cd");
    assert("help"@.len() != "pwd"@.len());
    assert("help"@.len() != "whoami"@.len());
    assert("help"@[0] != "date"@[0]);
    assert("help"@.len() != "ls"@.len());
    assert("help"@.len() != "cat"@.len());
    assert("help"@.len() != "clear"@.len());
    assert("help"@[0] != "echo"@[0]);
    assert("help"@.len() != "cd"@.len());
    assert("pwd"@.len() != "whoami"@.len());
    assert("pwd"@.len() != "date"@.len());
    assert("pwd"@.len() != "ls"@.len());
    assert("pwd"@[0] != "cat"@[0]);
    assert("pwd"@.len() != "clear"@.len());
    assert("pwd"@.len() != "echo"@.len());
    assert("pwd"@.len() != "cd"@.len());
    assert("whoami"@.len() != "date"@.len());
    assert("whoami"@.len() != "ls"@.len());
    assert("whoami"@.len() != "cat"@.len());
    assert("whoami"@.len() != "clear"@.len());
    assert("whoami"@.len() != "echo"@.len());
    assert("whoami"@.len() != "cd"@.len());
    assert("date"@.len() != "ls"@.len());
    assert("date"@.len() != "cat"@.len());
    assert("date"@.len() != "clear"@.len());
    assert("date"@[0] != "echo"@[0]);
    assert("date"@.len() != "cd"@.len());
    assert("ls"@.len() != "cat"@.len());
    assert("ls"@.len() != "clear"@.len());
    assert("ls"@.len() != "echo"@.len());
    assert("ls"@[0] != "cd"@[0]);
    assert("cat"@.len() != "clear"@.len());
    assert("cat"@.len() != "echo"@.len());
    assert("cat"@.len() != "cd"@.len());
    assert("clear"@.len() != "echo"@.len());
    assert("clear"@.len() != "cd"@.len());
    assert("echo"@.len() != "cd"@.len());
}

/// `cd` opens the page that its argument (or `/home`, without one) names
/// once normalised, when that is one of the site's pages, and otherwise
/// prints an error and opens nothing; later arguments are ignored.
pub proof fn lemma_cd_opens_normalized_page(ws: Seq<Seq<char>>)
    requires
        ws.len() >= 1,
        ws[0] == "cd"@,
    ensures
        ({
            let target = if ws.len() > 1 { ws[1] } else { "/home"@ };
            &&& (command_effect(ws).1 is Some <==> is_page(normalized(target)))
            &&& (command_effect(ws).1 matches Some(p) ==> p == normalized(target))
            &&& (command_effect(ws).0 is None <==> command_effect(ws).1 is Some)
        }),
{
    lemma_command_names_differ();
}

/// What `ls` prints depends only on the normalised path of its first
/// argument: two `ls` lines whose first arguments name the same directory
/// print the same listing.
pub proof fn lemma_ls_follows_normalized_path(ws1: Seq<Seq<char>>, ws2: Seq<Seq<char>>)
    requires
        ws1.len() > 1,
        ws2.len() > 1,
        ws1[0] == "ls"@,
        ws2[0] == "ls"@,
        normalized(ws1[1]) == normalized(ws2[1]),
    ensures
        command_effect(ws1) == command_effect(ws2),
        command_effect(ws1).1 is None,
{
    lemma_command_names_differ();
}

/// `help`, `pwd`, `whoami` and `date` give the same answer whatever
/// arguments follow them.
pub proof fn lemma_fixed_answers_ignore_arguments(ws: Seq<Seq<char>>)
    requires
        ws.len() >= 1,
        ws[0] == "help"@ || ws[0] == "pwd"@ || ws[0] == "whoami"@ || ws[0] == "date"@,
    ensures
        command_effect(ws) == command_effect(seq![ws[0]]),
        command_effect(ws).0 is Some,
        command_effect(ws).1 is None,
{
    lemma_command_names_differ();
}

/// A command opens a page only when it clears the screen, and the page is
/// always one of the site's pages.
pub proof fn lemma_navigation_targets(ws: Seq<Seq<char>>)
    requires
        ws.len() >= 1,
    ensures
        command_effect(ws).1 matches Some(p) ==> is_page(p) && command_effect(ws).0 is None,
{
}

} // verus!
