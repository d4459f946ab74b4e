//! The interactive terminal: its input line with a caret, the history of
//! commands and what they printed, and how it answers key presses.

use vstd::prelude::*;
use crate::commands::{command_effect, is_blank, opt_view, run_command};
use crate::completion::{complete, completion};
use crate::text::{chars_are, chars_of, has_prefix, starts_with, string_of, words};

verus! {

broadcast use vstd::string::group_string_axioms;

/// A command line that was run, and what it printed.
#[derive(Clone, Debug)]
pub struct CommandEntry {
    /// The line as it was typed.
    pub cmd: String,
    /// What the command printed.
    pub out: String,
}

impl View for CommandEntry {
    type V = (Seq<char>, Seq<char>);

    open spec fn view(&self) -> (Seq<char>, Seq<char>) {
        (self.cmd@, self.out@)
    }
}

/// A key press as the browser reports it.
pub struct KeyPress {
    /// The key's name (`"Enter"`, `"ArrowLeft"`, ...) or the character it types.
    pub key: String,
    pub ctrl: bool,
    pub alt: bool,
    pub meta: bool,
    pub shift: bool,
}

/// The model of a key press.
pub struct Key {
    pub key: Seq<char>,
    pub ctrl: bool,
    pub alt: bool,
    pub meta: bool,
    pub shift: bool,
}

impl View for KeyPress {
    type V = Key;

    open spec fn view(&self) -> Key {
        Key { key: self.key@, ctrl: self.ctrl, alt: self.alt, meta: self.meta, shift: self.shift }
    }
}

/// What the page has to do after a key press.
pub struct KeyResponse {
    /// The browser's own handling of the key is to be suppressed.
    pub prevent_default: bool,
    /// The page to open, when the key ran a `cd` that changes directory.
    pub navigate: Option<String>,
}

/// The model of the terminal: the history of commands with their output,
/// the input line, and the caret's position in it.
pub struct TerminalState {
    pub history: Seq<(Seq<char>, Seq<char>)>,
    pub input: Seq<char>,
    pub caret: nat,
}

/// A key held together with Ctrl, Alt or Meta.
pub open spec fn has_modifier(k: Key) -> bool {
    k.ctrl || k.alt || k.meta
}

/// Ctrl+C (without Shift or Alt), which abandons the input line.
pub open spec fn is_interrupt(k: Key) -> bool {
    k.key == "c"@ && k.ctrl && !k.shift && !k.alt
}

/// Whether the browser's own handling of `k` is suppressed: for Ctrl+C, and,
/// without modifiers, for Backspace, space, the arrow keys, Home, End and Tab.
pub open spec fn prevents_default(k: Key) -> bool {
    if has_modifier(k) {
        is_interrupt(k)
    } else {
        k.key == "Backspace"@ || k.key == " "@ || has_prefix(k.key, "Arrow"@) || k.key == "Home"@
            || k.key == "End"@ || k.key == "Tab"@
    }
}

/// The caret, kept within the line.
pub open spec fn caret_pos(t: TerminalState) -> nat {
    if t.caret <= t.input.len() {
        t.caret
    } else {
        t.input.len()
    }
}

/// The terminal after Enter: a blank line changes nothing; otherwise the
/// command runs, the line and its output join the history (or the history
/// is emptied, when the command clears the screen), and the line is emptied.
pub open spec fn after_enter(t: TerminalState) -> TerminalState {
    if is_blank(t.input) {
        t
    } else {
        let history = match command_effect(words(t.input)).0 {
            Some(out) => t.history.push((t.input, out)),
            None => Seq::empty(),
        };
        TerminalState { history, input: Seq::empty(), caret: 0 }
    }
}

/// The terminal after the key press `k`.
pub open spec fn state_after(t: TerminalState, k: Key) -> TerminalState {
    let len = t.input.len();
    let pos = caret_pos(t);
    if has_modifier(k) {
        if is_interrupt(k) {
            TerminalState { input: Seq::empty(), caret: 0, ..t }
        } else {
            t
        }
    } else if k.key == "Enter"@ {
        after_enter(t)
    } else if k.key == "Backspace"@ {
        if pos > 0 {
            TerminalState { input: t.input.remove(pos - 1), caret: (pos - 1) as nat, ..t }
        } else {
            t
        }
    } else if k.key == "Delete"@ {
        if pos < len {
            TerminalState { input: t.input.remove(pos as int), ..t }
        } else {
            t
        }
    } else if k.key == "ArrowLeft"@ {
        TerminalState { caret: if pos > 0 { (pos - 1) as nat } else { 0 }, ..t }
    } else if k.key == "ArrowRight"@ {
        TerminalState { caret: if pos + 1 <= len { pos + 1 } else { len }, ..t }
    } else if k.key == "Home"@ {
        TerminalState { caret: 0, ..t }
    } else if k.key == "End"@ {
        TerminalState { caret: len, ..t }
    } else if k.key == "Tab"@ {
        match completion(t.input) {
            Some(line) => TerminalState { input: line, caret: line.len(), ..t },
            None => t,
        }
    } else if k.key.len() == 1 {
        TerminalState { input: t.input.insert(pos as int, k.key[0]), caret: pos + 1, ..t }
    } else {
        t
    }
}

/// The page that the key press `k` opens, if any: only Enter on a line
/// whose command changes directory opens one.
pub open spec fn navigation(t: TerminalState, k: Key) -> Option<Seq<char>> {
    if !has_modifier(k) && k.key == "Enter"@ && !is_blank(t.input) {
        command_effect(words(t.input)).1
    } else {
        None
    }
}

/// A key pressed without modifiers.
pub open spec fn plain_key(name: Seq<char>) -> Key {
    Key { key: name, ctrl: false, alt: false, meta: false, shift: false }
}

proof fn lemma_named_keys_are_long()
    ensures
        "Enter"@.len() > 1,
        "Backspace"@.len() > 1,
        "Delete"@.len() > 1,
        "ArrowLeft"@.len() > 1,
        "ArrowRight"@.len() > 1,
        "Home"@.len() > 1,
        "End"@.len() > 1,
        "Tab"@.len() > 1,
        "Enter"@ != "Backspace"@,
        "Enter"@ != "Delete"@,
        "Enter"@ != "ArrowLeft"@,
        "Enter"@ != "ArrowRight"@,
        "Enter"@ != "Home"@,
        "Enter"@ != "End"@,
        "Backspace"@ != "Delete"@,
        "Backspace"@ != "ArrowLeft"@,
        "Backspace"@ != "ArrowRight"@,
        "Backspace"@ != "Home"@,
        "Backspace"@ != "End"@,
        "Delete"@ != "ArrowLeft"@,
        "Delete"@ != "ArrowRight"@,
        "Delete"@ != "Home"@,
        "Delete"@ != "End"@,
        "ArrowLeft"@ != "ArrowRight"@,
        "ArrowLeft"@ != "Home"@,
        "ArrowLeft"@ != "End"@,
        "ArrowRight"@ != "Home"@,
        "ArrowRight"@ != "End"@,
        "Home"@ != "End"@,
{
    reveal_strlit("Enter");
    reveal_strlit("Backspace");
    reveal_strlit("Delete");
    reveal_strlit("ArrowLeft");
    reveal_strlit("ArrowRight");
    reveal_strlit("Home");
    reveal_strlit("End");
    reveal_strlit("Tab");
    assert("Enter"@[0] != "Backspace"@[0]);
    assert("Enter"@[0] != "Delete"@[0]);
    assert("Enter"@[0] != "ArrowLeft"@[0]);
    assert("Enter"@[0] != "ArrowRight"@[0]);
    assert("Enter"@[0] != "Home"@[0]);
    assert("Enter"@.len() != "End"@.len());
    assert("Backspace"@[0] != "Delete"@[0]);
    assert("Backspace"@[0] != "ArrowLeft"@[0]);
    assert("Backspace"@[0] != "ArrowRight"@[0]);
    assert("Backspace"@[0] != "Home"@[0]);
    assert("Backspace"@[0] != "End"@[0]);
    assert("Delete"@[0] != "ArrowLeft"@[0]);
    assert("Delete"@[0] != "ArrowRight"@[0]);
    assert("Delete"@[0] != "Home"@[0]);
    assert("Delete"@[0] != "End"@[0]);
    assert("ArrowLeft"@.len() != "ArrowRight"@.len());
    assert("ArrowLeft"@[0] != "Home"@[0]);
    assert("ArrowLeft"@[0] != "End"@[0]);
    assert("ArrowRight"@[0] != "Home"@[0]);
    assert("ArrowRight"@[0] != "End"@[0]);
    assert("Home"@[0] != "End"@[0]);
}

/// Every key press keeps the caret within the input line.
pub proof fn lemma_caret_stays_in_line(t: TerminalState, k: Key)
    requires
        t.caret <= t.input.len(),
    ensures
        state_after(t, k).caret <= state_after(t, k).input.len(),
{
}

/// Typing a character and then pressing Backspace gives back the terminal
/// as it was.
pub proof fn lemma_type_then_backspace(t: TerminalState, c: char)
    requires
        t.caret <= t.input.len(),
    ensures
        state_after(state_after(t, plain_key(seq![c])), plain_key("Backspace"@)) == t,
{
    lemma_named_keys_are_long();
    let t1 = state_after(t, plain_key(seq![c]));
    assert(seq![c][0] == c);
    assert(t1.input == t.input.insert(t.caret as int, c));
    assert(t1.input.remove(t.caret as int) =~= t.input);
}

/// Typing a character puts it at the caret, between the characters before
/// and after the caret, and moves the caret past it.
pub proof fn lemma_typing_inserts_at_caret(t: TerminalState, c: char)
    requires
        t.caret <= t.input.len(),
    ensures
        state_after(t, plain_key(seq![c])).input == t.input.take(t.caret as int) + seq![c]
            + t.input.skip(t.caret as int),
        state_after(t, plain_key(seq![c])).caret == t.caret + 1,
        state_after(t, plain_key(seq![c])).history == t.history,
{
    lemma_named_keys_are_long();
    assert(seq![c][0] == c);
    assert(t.input.insert(t.caret as int, c) =~= t.input.take(t.caret as int) + seq![c]
        + t.input.skip(t.caret as int));
}

/// Home moves the caret to the start of the line and End to its end.
pub proof fn lemma_home_and_end(t: TerminalState)
    ensures
        state_after(t, plain_key("Home"@)).caret == 0,
        state_after(t, plain_key("End"@)).caret == t.input.len(),
{
    lemma_named_keys_are_long();
}

/// Ctrl+C abandons the line: the line is emptied, the caret goes to its
/// start, the history stays and no page opens.
pub proof fn lemma_interrupt_clears_line(t: TerminalState, k: Key)
    requires
        k.key == "c"@,
        k.ctrl,
        !k.shift,
        !k.alt,
    ensures
        state_after(t, k).input.len() == 0,
        state_after(t, k).caret == 0,
        state_after(t, k).history == t.history,
        navigation(t, k) is None,
        prevents_default(k),
{
}

/// Delete removes the character under the caret, and only that one: the
/// characters before and after it stay in order, the caret and the history
/// stay as they were.
pub proof fn lemma_delete_removes_under_caret(t: TerminalState)
    requires
        t.caret < t.input.len(),
    ensures
        state_after(t, plain_key("Delete"@)).input == t.input.take(t.caret as int) + t.input.skip(t.caret + 1int),
        state_after(t, plain_key("Delete"@)).input.len() + 1 == t.input.len(),
        state_after(t, plain_key("Delete"@)).caret == t.caret,
        state_after(t, plain_key("Delete"@)).history == t.history,
{
    lemma_named_keys_are_long();
    assert(t.input.remove(t.caret as int) =~= t.input.take(t.caret as int) + t.input.skip(t.caret + 1int));
}

/// Typing a character, moving the caret back over it and pressing Delete
/// gives back the terminal as it was.
pub proof fn lemma_type_left_delete(t: TerminalState, c: char)
    requires
        t.caret <= t.input.len(),
    ensures
        state_after(
            state_after(state_after(t, plain_key(seq![c])), plain_key("ArrowLeft"@)),
            plain_key("Delete"@),
        ) == t,
{
    lemma_named_keys_are_long();
    let t1 = state_after(t, plain_key(seq![c]));
    assert(seq![c][0] == c);
    assert(t1.input == t.input.insert(t.caret as int, c));
    assert(t1.input.remove(t.caret as int) =~= t.input);
}

/// Enter on a non-blank line whose command prints something appends
/// exactly one entry to the history, that line with its output, after all
/// the earlier entries (even when it repeats the last one), and empties the
/// line.
pub proof fn lemma_enter_appends_one_entry(t: TerminalState, out: Seq<char>)
    requires
        !is_blank(t.input),
        command_effect(words(t.input)).0 == Some(out),
    ensures
        state_after(t, plain_key("Enter"@)).history.len() == t.history.len() + 1,
        state_after(t, plain_key("Enter"@)).history.take(t.history.len() as int) == t.history,
        state_after(t, plain_key("Enter"@)).history.last() == (t.input, out),
        state_after(t, plain_key("Enter"@)).input.len() == 0,
        state_after(t, plain_key("Enter"@)).caret == 0,
{
    let h = state_after(t, plain_key("Enter"@)).history;
    assert(h == t.history.push((t.input, out)));
    assert(h.take(t.history.len() as int) =~= t.history);
}

/// ArrowLeft and then ArrowRight bring the caret back, when it was not at
/// the start of the line.
pub proof fn lemma_left_then_right(t: TerminalState)
    requires
        0 < t.caret <= t.input.len(),
    ensures
        state_after(state_after(t, plain_key("ArrowLeft"@)), plain_key("ArrowRight"@)) == t,
{
    lemma_named_keys_are_long();
}

/// ArrowRight and then ArrowLeft bring the caret back, when it was not at
/// the end of the line.
pub proof fn lemma_right_then_left(t: TerminalState)
    requires
        t.caret < t.input.len(),
    ensures
        state_after(state_after(t, plain_key("ArrowRight"@)), plain_key("ArrowLeft"@)) == t,
{
    lemma_named_keys_are_long();
}

/// The caret keys (the arrows, Home and End) change neither the line nor
/// the history, and open no page.
pub proof fn lemma_caret_keys_keep_line(t: TerminalState, name: Seq<char>)
    requires
        name == "ArrowLeft"@ || name == "ArrowRight"@ || name == "Home"@ || name == "End"@,
    ensures
        state_after(t, plain_key(name)).input == t.input,
        state_after(t, plain_key(name)).history == t.history,
        navigation(t, plain_key(name)) is None,
{
    lemma_named_keys_are_long();
}

/// The input line cut at the caret, as the page draws it.
pub struct CaretSegments {
    /// The characters before the caret.
    pub before: String,
    /// The character under the caret, or a space at the end of the line.
    pub active: String,
    /// The characters after the one under the caret.
    pub after: String,
}

/// The interactive terminal.
pub struct Terminal {
    history: Vec<CommandEntry>,
    input: Vec<char>,
    caret: usize,
}

impl View for Terminal {
    type V = TerminalState;

    closed spec fn view(&self) -> TerminalState {
        TerminalState {
            history: self.history@.map_values(|e: CommandEntry| e@),
            input: self.input@,
            caret: self.caret as nat,
        }
    }
}

impl Terminal {
    #[verifier::type_invariant]
    spec fn caret_in_line(self) -> bool {
        self.caret <= self.input.len()
    }

    /// A terminal with no history and an empty line.
    pub fn new() -> (res: Terminal)
        ensures
            res@ == (TerminalState { history: Seq::empty(), input: Seq::empty(), caret: 0 }),
    {
        let res = Terminal { history: Vec::new(), input: Vec::new(), caret: 0 };
        assert(res@.history =~= Seq::<(Seq<char>, Seq<char>)>::empty());
        res
    }

    /// The input line.
    pub fn input(&self) -> (res: String)
        ensures
            res@ == self@.input,
    {
        string_of(self.input.as_slice())
    }

    /// The caret's position in the input line.
    pub fn caret(&self) -> (res: usize)
        ensures
            res == self@.caret,
    {
        self.caret
    }

    /// The commands run so far, oldest first, with what they printed.
    pub fn history(&self) -> (res: &Vec<CommandEntry>)
        ensures
            res@.map_values(|e: CommandEntry| e@) == self@.history,
    {
        &self.history
    }

    /// Takes the input line out, leaving the line empty and the caret at
    /// its start.
    fn take_input(&mut self) -> (res: Vec<char>)
        ensures
            res@ == old(self)@.input,
            final(self)@ == (TerminalState { input: Seq::empty(), caret: 0, ..old(self)@ }),
    {
        self.caret = 0;
        let mut input = Vec::new();
        std::mem::swap(&mut input, &mut self.input);
        input
    }

    /// Runs the input line as a command, as Enter does: see [`after_enter`].
    /// Returns the page that the command opens, if any.
    pub fn execute_command(&mut self) -> (nav: Option<String>)
        ensures
            final(self)@ == after_enter(old(self)@),
            opt_view(nav) == (if is_blank(old(self)@.input) {
                None
            } else {
                command_effect(words(old(self)@.input)).1
            }),
    {
        proof {
            use_type_invariant(&*self);
        }
        let line = string_of(self.input.as_slice());
        match run_command(line.as_str()) {
            None => None,
            Some(outcome) => {
                match outcome.output {
                    Some(out) => {
                        let mut history = Vec::new();
                        std::mem::swap(&mut history, &mut self.history);
                        history.push(CommandEntry { cmd: line, out });
                        self.history = history;
                    },
                    None => {
                        self.history = Vec::new();
                    },
                }
                self.caret = 0;
                self.input = Vec::new();
                assert(self@.history =~= after_enter(old(self)@).history);
                outcome.navigate
            },
        }
    }

    /// Answers the key press `k`: updates the line, the caret and the
    /// history as [`state_after`] says, and tells the page whether to
    /// suppress the browser's handling of the key and which page to open.
    pub fn handle_key(&mut self, k: &KeyPress) -> (res: KeyResponse)
        ensures
            final(self)@ == state_after(old(self)@, k@),
            res.prevent_default == prevents_default(k@),
            opt_view(res.navigate) == navigation(old(self)@, k@),
    {
        proof {
            use_type_invariant(&*self);
        }
        let key = chars_of(k.key.as_str());
        if k.ctrl || k.alt || k.meta {
            let interrupt = chars_are(key.as_slice(), "c") && k.ctrl && !k.shift && !k.alt;
            if interrupt {
                self.caret = 0;
                self.input = Vec::new();
            }
            return KeyResponse { prevent_default: interrupt, navigate: None };
        }
        let arrow = chars_of("Arrow");
        let prevent = chars_are(key.as_slice(), "Backspace") || chars_are(key.as_slice(), " ")
            || starts_with(key.as_slice(), arrow.as_slice()) || chars_are(key.as_slice(), "Home")
            || chars_are(key.as_slice(), "End") || chars_are(key.as_slice(), "Tab");
        let len = self.input.len();
        let pos = if self.caret <= len {
            self.caret
        } else {
            len
        };
        let mut navigate = None;
        if chars_are(key.as_slice(), "Enter") {
            navigate = self.execute_command();
        } else if chars_are(key.as_slice(), "Backspace") {
            if pos > 0 {
                let mut input = self.take_input();
                input.remove(pos - 1);
                self.input = input;
                self.caret = pos - 1;
            }
        } else if chars_are(key.as_slice(), "Delete") {
            if pos < len {
                let mut input = self.take_input();
                input.remove(pos);
                self.input = input;
                self.caret = pos;
            }
        } else if chars_are(key.as_slice(), "ArrowLeft") {
            self.caret = if pos > 0 {
                pos - 1
            } else {
                0
            };
        } else if chars_are(key.as_slice(), "ArrowRight") {
            self.caret = if pos < len {
                pos + 1
            } else {
                len
            };
        } else if chars_are(key.as_slice(), "Home") {
            self.caret = 0;
        } else if chars_are(key.as_slice(), "End") {
            self.caret = len;
        } else if chars_are(key.as_slice(), "Tab") {
            match complete(self.input.as_slice()) {
                Some(line) => {
                    self.caret = 0;
                    self.input = line;
                    self.caret = self.input.len();
                },
                None => {},
            }
        } else if key.len() == 1 {
            let mut input = self.take_input();
            input.insert(pos, key[0]);
            self.input = input;
            self.caret = pos + 1;
        }
        KeyResponse { prevent_default: prevent, navigate }
    }

    /// The input line cut at the caret: the characters before it, the one
    /// under it (a space at the end of the line) and those after that.
    pub fn caret_segments(&self) -> (res: CaretSegments)
        ensures
            res.before@ == self@.input.take(caret_pos(self@) as int),
            res.active@ == (if caret_pos(self@) < self@.input.len() {
                seq![self@.input[caret_pos(self@) as int]]
            } else {
                seq![' ']
            }),
            res.after@ == (if caret_pos(self@) + 1 < self@.input.len() {
                self@.input.skip(caret_pos(self@) + 1int)
            } else {
                Seq::empty()
            }),
    {
        let len = self.input.len();
        let pos = if self.caret <= len {
            self.caret
        } else {
            len
        };
        let mut before: Vec<char> = Vec::new();
        let mut after: Vec<char> = Vec::new();
        for i in 0..len
            invariant
                len == self@.input.len(),
                pos <= len,
                pos == caret_pos(self@),
                before@ =~= self@.input.take(if i < pos { i as int } else { pos as int }),
                after@ =~= if i <= pos + 1 { Seq::<char>::empty() } else { self@.input.subrange(pos + 1, i as int) },
        {
            if i < pos {
                before.push(self.input[i]);
            } else if i > pos {
                after.push(self.input[i]);
            }
        }
        let mut active: Vec<char> = Vec::new();
        if pos < len {
            active.push(self.input[pos]);
        } else {
            active.push(' ');
        }
        assert(pos + 1 < len ==> after@ =~= self@.input.skip(pos + 1));
        CaretSegments {
            before: string_of(before.as_slice()),
            active: string_of(active.as_slice()),
            after: string_of(after.as_slice()),
        }
    }
}

} // verus!
