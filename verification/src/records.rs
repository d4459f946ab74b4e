//! The team's players and achievements, as the site lists them.

use vstd::prelude::*;
use crate::text::{append_chars, chars_of, string_of};

verus! {

broadcast use vstd::string::group_string_axioms;

/// A member of the team.
#[derive(Clone, Debug, PartialEq)]
pub struct Player {
    pub id: i32,
    pub name: String,
    pub tg_username: String,
    pub rank: String,
}

/// A competition result of the team.
#[derive(Clone, Debug, PartialEq)]
pub struct Achievement {
    pub id: i32,
    pub date: String,
    pub event: String,
    pub rating: i32,
    pub link: Option<String>,
}

/// `s` without the copies of `c` that it starts with.
pub open spec fn strip_leading(s: Seq<char>, c: char) -> Seq<char>
    decreases s.len(),
{
    if s.len() > 0 && s[0] == c {
        strip_leading(s.drop_first(), c)
    } else {
        s
    }
}

/// The Telegram address of the user `tg_username`, which may be written
/// with leading `@`s.
pub open spec fn telegram_address(tg_username: Seq<char>) -> Seq<char> {
    "https://t.me/"@ + strip_leading(tg_username, '@')
}

/// The Telegram address of the user `tg_username`, which may be written
/// with leading `@`s: `@team` and `team` both give `https://t.me/team`.
pub fn telegram_url(tg_username: &str) -> (res: String)
    ensures
        res@ == telegram_address(tg_username@),
{
    let s = chars_of(tg_username);
    let n = s.len();
    let mut i: usize = 0;
    assert(s@.skip(0) =~= s@);
    while i < n && s[i] == '@'
        invariant
            n == s@.len(),
            i <= n,
            strip_leading(s@, '@') == strip_leading(s@.skip(i as int), '@'),
        decreases n - i,
    {
        assert(s@.skip(i as int).drop_first() =~= s@.skip(i + 1));
        i = i + 1;
    }
    let mut out = chars_of("https://t.me/");
    let mut rest: Vec<char> = Vec::new();
    for j in i..n
        invariant
            n == s@.len(),
            i <= n,
            rest@ =~= s@.subrange(i as int, j as int),
    {
        rest.push(s[j]);
    }
    assert(rest@ =~= s@.skip(i as int));
    append_chars(&mut out, rest.as_slice());
    string_of(out.as_slice())
}

} // verus!
