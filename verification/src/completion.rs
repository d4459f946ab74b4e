//! Tab completion of command names and of the paths that `cd`, `ls` and
//! `cat` take.

use vstd::prelude::*;
use crate::text::{
    append_chars, chars_are, chars_of, has_prefix, join, lemma_join_split, lemma_split_append_plain,
    lemma_split_on_len, split_at_char, split_on, starts_with, views,
};

verus! {

broadcast use vstd::string::group_string_axioms;

/// The commands that completion offers, in the order in which it tries them.
pub open spec fn command_names() -> Seq<Seq<char>> {
    seq![
        "help"@,
        "pwd"@,
        "whoami"@,
        "date"@,
        "clear"@,
        "ls"@,
        "cd"@,
        "echo"@,
        "cat"@,
    ]
}

/// The entries that path completion offers after a `/`.
pub open spec fn entry_names() -> Seq<Seq<char>> {
    seq!["home"@, "achievements"@, "players"@, "about.txt"@, "info"@, "welcome.sh"@]
}

/// The absolute entries that path completion tries first when nothing
/// before the word being completed ends in `/`.
pub open spec fn absolute_entry_names() -> Seq<Seq<char>> {
    seq!["/home"@, "/achievements"@, "/players"@, "/about.txt"@, "/info"@, "/welcome.sh"@]
}

/// The first of `cands` that starts with `p`, if any.
pub open spec fn first_with_prefix(cands: Seq<Seq<char>>, p: Seq<char>) -> Option<Seq<char>>
    decreases cands.len(),
{
    if cands.len() == 0 {
        None
    } else if has_prefix(cands[0], p) {
        Some(cands[0])
    } else {
        first_with_prefix(cands.drop_first(), p)
    }
}

/// The position just after the last `/` of `s`, or 0 when there is none.
pub open spec fn after_last_slash(s: Seq<char>) -> int
    decreases s.len(),
{
    if s.len() == 0 {
        0
    } else if s.last() == '/' {
        s.len() as int
    } else {
        after_last_slash(s.drop_last())
    }
}

/// The commands whose argument is a path that completion can extend.
pub open spec fn takes_path(name: Seq<char>) -> bool {
    name == "cd"@ || name == "ls"@ || name == "cat"@
}

/// What Tab turns the input line `input` into, when it completes anything.
/// The line is split at single spaces. A line of one word completes to the
/// first command that starts with it, followed by a space. A line of two
/// words whose first is `cd`, `ls` or `cat` completes the part of the
/// second word after its last `/` to the first entry that starts with it
/// (trying the absolute entries first when the word has no `/`), followed
/// by a space.
pub open spec fn completion(input: Seq<char>) -> Option<Seq<char>> {
    let parts = split_on(input, ' ');
    let last = parts.last();
    if parts.len() <= 1 {
        match first_with_prefix(command_names(), last) {
            Some(c) => Some(c.push(' ')),
            None => None,
        }
    } else if parts.len() == 2 && takes_path(parts[0]) {
        let k = after_last_slash(last);
        let prefix = last.take(k);
        let suffix = last.skip(k);
        let found = if prefix.len() == 0 {
            first_with_prefix(absolute_entry_names() + entry_names(), suffix)
        } else {
            first_with_prefix(entry_names(), suffix)
        };
        match found {
            Some(m) => Some(parts[0].push(' ') + prefix + m.push(' ')),
            None => None,
        }
    } else {
        None
    }
}

proof fn lemma_after_last_slash_bounds(s: Seq<char>)
    ensures
        0 <= after_last_slash(s) <= s.len(),
    decreases s.len(),
{
    if s.len() > 0 {
        lemma_after_last_slash_bounds(s.drop_last());
    }
}

/// The first of `cands` that starts with `p`, if any.
fn find_with_prefix(cands: &Vec<Vec<char>>, p: &[char]) -> (res: Option<Vec<char>>)
    ensures
        match res {
            Some(c) => first_with_prefix(views(cands@), p@) == Some(c@),
            None => first_with_prefix(views(cands@), p@) is None,
        },
{
    let n = cands.len();
    let ghost cs = views(cands@);
    assert(cs.skip(0) =~= cs);
    for i in 0..n
        invariant
            n == cands@.len(),
            cs == views(cands@),
            first_with_prefix(cs, p@) == first_with_prefix(cs.skip(i as int), p@),
    {
        assert(cs.skip(i as int)[0] == cands@[i as int]@);
        assert(cs.skip(i as int).drop_first() =~= cs.skip(i + 1));
        if starts_with(cands[i].as_slice(), p) {
            return Some(cands[i].clone());
        }
    }
    assert(cs.skip(n as int) =~= Seq::<Seq<char>>::empty());
    None
}

/// Builds the list of candidates from their texts.
fn candidates(names: &[&str]) -> (res: Vec<Vec<char>>)
    ensures
        res@.len() == names@.len(),
        forall|i: int| 0 <= i < names@.len() ==> (#[trigger] res@[i])@ == names@[i]@,
{
    let mut res: Vec<Vec<char>> = Vec::new();
    let n = names.len();
    for i in 0..n
        invariant
            n == names@.len(),
            res@.len() == i,
            forall|j: int| 0 <= j < i ==> (#[trigger] res@[j])@ == names@[j]@,
    {
        res.push(chars_of(names[i]));
    }
    res
}

/// The position just after the last `/` of `s`, or 0 when there is none.
fn find_after_last_slash(s: &[char]) -> (res: usize)
    ensures
        res == after_last_slash(s@),
{
    let mut k = s.len();
    assert(s@.take(k as int) =~= s@);
    while k > 0
        invariant
            k <= s@.len(),
            after_last_slash(s@) == after_last_slash(s@.take(k as int)),
        decreases k,
    {
        assert(s@.take(k as int).drop_last() =~= s@.take(k - 1));
        assert(s@.take(k as int).last() == s@[k - 1]);
        if s[k - 1] == '/' {
            return k;
        }
        k = k - 1;
    }
    assert(s@.take(0) =~= Seq::<char>::empty());
    0
}

/// What Tab turns the input line `input` into, when it completes anything;
/// see [`completion`].
pub fn complete(input: &[char]) -> (res: Option<Vec<char>>)
    ensures
        match res {
            Some(v) => completion(input@) == Some(v@),
            None => completion(input@) is None,
        },
{
    let parts = split_at_char(input, ' ');
    proof {
        lemma_split_on_len(input@, ' ');
    }
    let ghost ps = split_on(input@, ' ');
    let last = &parts[parts.len() - 1];
    assert(last@ == ps.last());
    if parts.len() <= 1 {
        let names = candidates(
            &["help", "pwd", "whoami", "date", "clear", "ls", "cd", "echo", "cat"],
        );
        assert(views(names@) =~= command_names());
        match find_with_prefix(&names, last.as_slice()) {
            Some(c) => {
                let mut out = c;
                out.push(' ');
                assert(out@ =~= completion(input@)->0);
                Some(out)
            },
            None => None,
        }
    } else if parts.len() == 2 && (chars_are(parts[0].as_slice(), "cd") || chars_are(
        parts[0].as_slice(),
        "ls",
    ) || chars_are(parts[0].as_slice(), "cat")) {
        assert(parts[0]@ == ps[0]);
        let k = find_after_last_slash(last.as_slice());
        proof {
            lemma_after_last_slash_bounds(last@);
        }
        let mut prefix: Vec<char> = Vec::new();
        let mut suffix: Vec<char> = Vec::new();
        let m = last.len();
        for i in 0..m
            invariant
                m == last@.len(),
                k <= m,
                prefix@ =~= last@.take(if i < k { i as int } else { k as int }),
                suffix@ =~= if i < k { Seq::<char>::empty() } else { last@.subrange(k as int, i as int) },
        {
            if i < k {
                prefix.push(last[i]);
            } else {
                suffix.push(last[i]);
            }
        }
        assert(suffix@ =~= last@.skip(k as int));
        let entries = candidates(
            &["home", "achievements", "players", "about.txt", "info", "welcome.sh"],
        );
        assert(views(entries@) =~= entry_names());
        let found = if prefix.len() == 0 {
            let mut all = candidates(
                &["/home", "/achievements", "/players", "/about.txt", "/info", "/welcome.sh"],
            );
            assert(views(all@) =~= absolute_entry_names());
            let mut rest = entries;
            all.append(&mut rest);
            assert(views(all@) =~= absolute_entry_names() + entry_names());
            find_with_prefix(&all, suffix.as_slice())
        } else {
            find_with_prefix(&entries, suffix.as_slice())
        };
        match found {
            Some(e) => {
                let mut out = parts[0].clone();
                out.push(' ');
                append_chars(&mut out, prefix.as_slice());
                append_chars(&mut out, e.as_slice());
                out.push(' ');
                assert(out@ =~= completion(input@)->0);
                Some(out)
            },
            None => None,
        }
    } else {
        None
    }
}

proof fn lemma_first_with_prefix_matches(cands: Seq<Seq<char>>, p: Seq<char>)
    ensures
        first_with_prefix(cands, p) matches Some(c) ==> has_prefix(c, p),
    decreases cands.len(),
{
    if cands.len() > 0 && !has_prefix(cands[0], p) {
        lemma_first_with_prefix_matches(cands.drop_first(), p);
    }
}

/// Tab only ever adds to the line: what was typed is a prefix of what
/// completion makes of it, which is longer and ends in a space.
pub proof fn lemma_completion_extends(input: Seq<char>)
    ensures
        completion(input) matches Some(out) ==> {
            &&& has_prefix(out, input)
            &&& out.len() > input.len()
            &&& out.last() == ' '
        },
{
    let parts = split_on(input, ' ');
    lemma_split_on_len(input, ' ');
    lemma_join_split(input, ' ');
    let last = parts.last();
    if parts.len() <= 1 {
        lemma_first_with_prefix_matches(command_names(), last);
        assert(join(parts, seq![' ']) == parts[0]);
        if let Some(out) = completion(input) {
            let c = first_with_prefix(command_names(), last)->0;
            assert(out == c.push(' '));
            assert(out.take(input.len() as int) =~= c.take(input.len() as int));
            assert(out.last() == ' ');
        }
    } else if parts.len() == 2 && takes_path(parts[0]) {
        let k = after_last_slash(last);
        lemma_after_last_slash_bounds(last);
        let prefix = last.take(k);
        let suffix = last.skip(k);
        lemma_first_with_prefix_matches(absolute_entry_names() + entry_names(), suffix);
        lemma_first_with_prefix_matches(entry_names(), suffix);
        assert(parts.drop_last() =~= seq![parts[0]]);
        assert(join(seq![parts[0]], seq![' ']) == parts[0]);
        assert(input =~= parts[0] + seq![' '] + last);
        if let Some(out) = completion(input) {
            let m = if prefix.len() == 0 {
                first_with_prefix(absolute_entry_names() + entry_names(), suffix)->0
            } else {
                first_with_prefix(entry_names(), suffix)->0
            };
            assert(out == parts[0].push(' ') + prefix + m.push(' '));
            assert(has_prefix(m, suffix));
            assert(last =~= prefix + suffix);
            assert forall|i: int| 0 <= i < input.len() implies out[i] == input[i] by {
                let a = parts[0].len() + 1;
                if i >= a + prefix.len() {
                    assert(m[i - a - prefix.len()] == suffix[i - a - prefix.len()]) by {
                        assert(m.take(suffix.len() as int)[i - a - prefix.len()]
                            == suffix[i - a - prefix.len()]);
                    }
                }
            }
            assert(out.take(input.len() as int) =~= input);
            assert(out.last() == ' ');
            assert(m.len() >= suffix.len());
        }
    }
}

/// Tab on a line of one word (no space) completes it to the first command
/// name (in the order `help`, `pwd`, `whoami`, `date`, `clear`, `ls`, `cd`,
/// `echo`, `cat`) that starts with it, followed by a space; it completes
/// exactly when some command name starts with the word.
pub proof fn lemma_completion_of_command(word: Seq<char>)
    requires
        !word.contains(' '),
    ensures
        completion(word) is Some <==> exists|i: int|
            0 <= i < command_names().len() && has_prefix(#[trigger] command_names()[i], word),
        completion(word) matches Some(out) ==> {
            &&& command_names().contains(out.drop_last())
            &&& has_prefix(out.drop_last(), word)
            &&& out.last() == ' '
            &&& exists|i: int|
                0 <= i < command_names().len() && #[trigger] command_names()[i] == out.drop_last()
                    && forall|j: int| 0 <= j < i ==> !has_prefix(#[trigger] command_names()[j], word)
        },
{
    let e = Seq::<char>::empty();
    assert(split_on(e, ' ') == seq![e]);
    lemma_split_append_plain(e, word, ' ');
    assert(e + word =~= word);
    assert(split_on(word, ' ') =~= seq![word]);
    lemma_first_with_prefix_is_candidate(command_names(), word);
    lemma_first_with_prefix_matches(command_names(), word);
    if let Some(out) = completion(word) {
        let c = first_with_prefix(command_names(), word)->0;
        assert(out.drop_last() =~= c);
        let i = lemma_first_with_prefix_is_first(command_names(), word);
        assert(command_names()[i] == out.drop_last());
    }
}

proof fn lemma_first_with_prefix_is_first(cands: Seq<Seq<char>>, p: Seq<char>) -> (i: int)
    requires
        first_with_prefix(cands, p) is Some,
    ensures
        0 <= i < cands.len(),
        cands[i] == first_with_prefix(cands, p)->0,
        forall|j: int| 0 <= j < i ==> !has_prefix(#[trigger] cands[j], p),
    decreases cands.len(),
{
    if has_prefix(cands[0], p) {
        0
    } else {
        let rest = cands.drop_first();
        let k = lemma_first_with_prefix_is_first(rest, p);
        assert forall|j: int| 0 <= j < k + 1 implies !has_prefix(#[trigger] cands[j], p) by {
            if j > 0 {
                assert(cands[j] == rest[j - 1]);
            }
        }
        k + 1
    }
}

proof fn lemma_first_with_prefix_is_candidate(cands: Seq<Seq<char>>, p: Seq<char>)
    ensures
        first_with_prefix(cands, p) is Some <==> exists|i: int|
            0 <= i < cands.len() && has_prefix(#[trigger] cands[i], p),
        first_with_prefix(cands, p) matches Some(c) ==> cands.contains(c),
    decreases cands.len(),
{
    if cands.len() > 0 {
        let rest = cands.drop_first();
        lemma_first_with_prefix_is_candidate(rest, p);
        if !has_prefix(cands[0], p) {
            if exists|i: int| 0 <= i < cands.len() && has_prefix(#[trigger] cands[i], p) {
                let i = choose|i: int| 0 <= i < cands.len() && has_prefix(#[trigger] cands[i], p);
                assert(rest[i - 1] == cands[i]);
            }
            if exists|i: int| 0 <= i < rest.len() && has_prefix(#[trigger] rest[i], p) {
                let i = choose|i: int| 0 <= i < rest.len() && has_prefix(#[trigger] rest[i], p);
                assert(cands[i + 1] == rest[i]);
            }
            if let Some(c) = first_with_prefix(rest, p) {
                let i = choose|i: int| 0 <= i < rest.len() && rest[i] == c;
                assert(cands[i + 1] == c);
            }
        } else {
            assert(cands[0] == cands[0]);
        }
    }
}

proof fn lemma_slash_found(s: Seq<char>)
    requires
        s.contains('/'),
    ensures
        after_last_slash(s) > 0,
        s[after_last_slash(s) - 1] == '/',
    decreases s.len(),
{
    if s.last() != '/' {
        let s0 = s.drop_last();
        let i = choose|i: int| 0 <= i < s.len() && s[i] == '/';
        assert(i != s.len() - 1);
        assert(s0[i] == '/');
        lemma_slash_found(s0);
        lemma_after_last_slash_bounds(s0);
        assert(s[after_last_slash(s0) - 1] == s0[after_last_slash(s0) - 1]);
    }
}

proof fn lemma_entries_are_relative()
    ensures
        forall|i: int| 0 <= i < entry_names().len() ==> !(#[trigger] entry_names()[i]).contains('/'),
{
    reveal_strlit("home");
    reveal_strlit("achievements");
    reveal_strlit("players");
    reveal_strlit("about.txt");
    reveal_strlit("info");
    reveal_strlit("welcome.sh");
    let es = entry_names();
    assert forall|i: int| 0 <= i < es.len() implies !(#[trigger] es[i]).contains('/') by {
        let e = es[i];
        if e.contains('/') {
            let j = choose|j: int| 0 <= j < e.len() && e[j] == '/';
            assert(false);
        }
    }
}

/// Tab on `cd`, `ls` or `cat` followed by a word with a `/` keeps the word
/// up to its last `/` and appends, after it, the first of the relative
/// entry names (`home`, `achievements`, `players`, `about.txt`, `info`,
/// `welcome.sh`) that starts with the rest of the word, and a space; it
/// completes exactly when such an entry exists, and never appends an
/// absolute name after a `/`.
pub proof fn lemma_completion_after_slash(cmd: Seq<char>, word: Seq<char>)
    requires
        takes_path(cmd),
        !word.contains(' '),
        word.contains('/'),
    ensures
        ({
            let input = cmd + seq![' '] + word;
            let k = after_last_slash(word);
            let suffix = word.skip(k);
            let found = first_with_prefix(entry_names(), suffix);
            &&& 0 < k <= word.len()
            &&& word[k - 1] == '/'
            &&& (completion(input) is Some <==> exists|i: int|
                0 <= i < entry_names().len() && has_prefix(#[trigger] entry_names()[i], suffix))
            &&& (completion(input) matches Some(out) ==> {
                &&& found is Some
                &&& entry_names().contains(found->0)
                &&& !found->0.contains('/')
                &&& has_prefix(found->0, suffix)
                &&& out == cmd + seq![' '] + word.take(k) + found->0 + seq![' ']
            })
        }),
{
    reveal_strlit("cd");
    reveal_strlit("ls");
    reveal_strlit("cat");
    let input = cmd + seq![' '] + word;
    let k = after_last_slash(word);
    let suffix = word.skip(k);
    lemma_slash_found(word);
    lemma_after_last_slash_bounds(word);
    assert(!cmd.contains(' ')) by {
        if cmd.contains(' ') {
            let j = choose|j: int| 0 <= j < cmd.len() && cmd[j] == ' ';
            assert(false);
        }
    }
    let e = Seq::<char>::empty();
    assert(split_on(e, ' ') == seq![e]);
    lemma_split_append_plain(e, cmd, ' ');
    assert(e + cmd =~= cmd);
    assert(split_on(cmd, ' ') =~= seq![cmd]);
    let c1 = cmd + seq![' '];
    assert(c1.drop_last() =~= cmd);
    assert(split_on(c1, ' ') == seq![cmd].push(e));
    lemma_split_append_plain(c1, word, ' ');
    assert(seq![cmd, e].update(1, e + word) =~= seq![cmd, word]);
    assert(c1 + word =~= input);
    assert(split_on(input, ' ') == seq![cmd, word]);
    assert(word.take(k).len() > 0);
    lemma_first_with_prefix_is_candidate(entry_names(), suffix);
    lemma_first_with_prefix_matches(entry_names(), suffix);
    lemma_entries_are_relative();
    if let Some(m) = first_with_prefix(entry_names(), suffix) {
        let i = choose|i: int| 0 <= i < entry_names().len() && entry_names()[i] == m;
        assert(!entry_names()[i].contains('/'));
        assert(cmd.push(' ') + word.take(k) + m.push(' ') =~= cmd + seq![' '] + word.take(k) + m
            + seq![' ']);
    }
}

} // verus!
