//! Character-level text handling: splitting, joining and building strings.

use vstd::prelude::*;

verus! {

broadcast use vstd::string::group_string_axioms;

/// Unicode `White_Space`: the characters that `char::is_whitespace` accepts.
pub open spec fn is_space_char(c: char) -> bool {
    ||| ('\u{9}' <= c && c <= '\u{d}')
    ||| c == ' '
    ||| c == '\u{85}'
    ||| c == '\u{a0}'
    ||| c == '\u{1680}'
    ||| ('\u{2000}' <= c && c <= '\u{200a}')
    ||| c == '\u{2028}'
    ||| c == '\u{2029}'
    ||| c == '\u{202f}'
    ||| c == '\u{205f}'
    ||| c == '\u{3000}'
}

/// The pieces of `s` between its whitespace characters, empty pieces
/// included: the empty text gives one empty piece.
pub open spec fn split_spaces(s: Seq<char>) -> Seq<Seq<char>>
    decreases s.len(),
{
    if s.len() == 0 {
        seq![Seq::<char>::empty()]
    } else {
        let r = split_spaces(s.drop_last());
        if is_space_char(s.last()) {
            r.push(Seq::<char>::empty())
        } else {
            r.update(r.len() - 1, r.last().push(s.last()))
        }
    }
}

/// `s` split at every occurrence of `sep`, empty pieces included, as
/// `str::split` does with a character pattern.
pub open spec fn split_on(s: Seq<char>, sep: char) -> Seq<Seq<char>>
    decreases s.len(),
{
    if s.len() == 0 {
        seq![Seq::<char>::empty()]
    } else {
        let r = split_on(s.drop_last(), sep);
        if s.last() == sep {
            r.push(Seq::<char>::empty())
        } else {
            r.update(r.len() - 1, r.last().push(s.last()))
        }
    }
}

/// The pieces of `parts` that are not empty, in order.
pub open spec fn non_empty(parts: Seq<Seq<char>>) -> Seq<Seq<char>>
    decreases parts.len(),
{
    if parts.len() == 0 {
        Seq::empty()
    } else if parts.last().len() == 0 {
        non_empty(parts.drop_last())
    } else {
        non_empty(parts.drop_last()).push(parts.last())
    }
}

/// The whitespace-separated words of `s`.
pub open spec fn words(s: Seq<char>) -> Seq<Seq<char>> {
    non_empty(split_spaces(s))
}

/// The pieces of `parts` with `sep` between each two of them.
pub open spec fn join(parts: Seq<Seq<char>>, sep: Seq<char>) -> Seq<char>
    decreases parts.len(),
{
    if parts.len() == 0 {
        Seq::empty()
    } else if parts.len() == 1 {
        parts[0]
    } else {
        join(parts.drop_last(), sep) + sep + parts.last()
    }
}

/// `p` is a prefix of `s`.
pub open spec fn has_prefix(s: Seq<char>, p: Seq<char>) -> bool {
    p.len() <= s.len() && s.take(p.len() as int) =~= p
}

/// The contents of a vector of character vectors.
pub open spec fn views(v: Seq<Vec<char>>) -> Seq<Seq<char>> {
    v.map_values(|w: Vec<char>| w@)
}

/// Splitting at whitespace never gives an empty list of pieces.
pub proof fn lemma_split_spaces_len(s: Seq<char>)
    ensures
        split_spaces(s).len() >= 1,
    decreases s.len(),
{
    if s.len() > 0 {
        lemma_split_spaces_len(s.drop_last());
    }
}

/// Splitting at a character never gives an empty list of pieces.
pub proof fn lemma_split_on_len(s: Seq<char>, sep: char)
    ensures
        split_on(s, sep).len() >= 1,
    decreases s.len(),
{
    if s.len() > 0 {
        lemma_split_on_len(s.drop_last(), sep);
    }
}

/// Joining the pieces of a split with the separator gives the text back.
pub proof fn lemma_join_split(s: Seq<char>, sep: char)
    ensures
        join(split_on(s, sep), seq![sep]) == s,
    decreases s.len(),
{
    if s.len() == 0 {
        assert(join(seq![Seq::<char>::empty()], seq![sep]) == Seq::<char>::empty());
    } else {
        let s0 = s.drop_last();
        lemma_join_split(s0, sep);
        lemma_split_on_len(s0, sep);
        let r = split_on(s0, sep);
        if s.last() == sep {
            let r2 = r.push(Seq::<char>::empty());
            assert(r2.drop_last() =~= r);
            assert(join(r2, seq![sep]) == join(r, seq![sep]) + seq![sep] + Seq::<char>::empty());
            assert(s =~= s0 + seq![sep] + Seq::<char>::empty());
        } else {
            let r2 = r.update(r.len() - 1, r.last().push(s.last()));
            if r.len() == 1 {
                assert(join(r2, seq![sep]) == r2[0]);
                assert(join(r, seq![sep]) == r[0]);
                assert(s =~= s0.push(s.last()));
            } else {
                assert(r2.drop_last() =~= r.drop_last());
                assert(join(r2, seq![sep]) == join(r.drop_last(), seq![sep]) + seq![sep] + r2.last());
                assert(join(r, seq![sep]) == join(r.drop_last(), seq![sep]) + seq![sep] + r.last());
                assert(join(r2, seq![sep]) =~= join(r, seq![sep]).push(s.last()));
                assert(s =~= s0.push(s.last()));
            }
        }
    }
}

/// `w` holds no whitespace.
pub open spec fn space_free(w: Seq<char>) -> bool {
    forall|i: int| 0 <= i < w.len() ==> !is_space_char(#[trigger] w[i])
}

/// A word: not empty, and without whitespace.
pub open spec fn is_word(w: Seq<char>) -> bool {
    w.len() > 0 && space_free(w)
}

proof fn lemma_split_spaces_append(s: Seq<char>, t: Seq<char>)
    requires
        space_free(t),
    ensures
        split_spaces(s + t) == split_spaces(s).update(
            split_spaces(s).len() - 1,
            split_spaces(s).last() + t,
        ),
    decreases t.len(),
{
    lemma_split_spaces_len(s);
    let r = split_spaces(s);
    if t.len() == 0 {
        assert(s + t =~= s);
        assert(r.update(r.len() - 1, r.last() + t) =~= r);
    } else {
        let t0 = t.drop_last();
        assert(space_free(t0)) by {
            assert forall|i: int| 0 <= i < t0.len() implies !is_space_char(#[trigger] t0[i]) by {
                assert(t0[i] == t[i]);
            }
        }
        lemma_split_spaces_append(s, t0);
        lemma_split_spaces_len(s + t0);
        assert((s + t).drop_last() =~= s + t0);
        assert((s + t).last() == t.last());
        assert(!is_space_char(t[t.len() - 1]));
        let r0 = split_spaces(s + t0);
        assert((r.last() + t0).push(t.last()) =~= r.last() + t);
        assert(split_spaces(s + t) =~= r0.update(r0.len() - 1, r0.last().push(t.last())));
        assert(split_spaces(s + t) =~= r.update(r.len() - 1, r.last() + t));
    }
}

proof fn lemma_split_spaces_join(ws: Seq<Seq<char>>)
    requires
        ws.len() > 0,
        forall|i: int| 0 <= i < ws.len() ==> space_free(#[trigger] ws[i]),
    ensures
        split_spaces(join(ws, seq![' '])) == ws,
    decreases ws.len(),
{
    let sp = seq![' '];
    let e = Seq::<char>::empty();
    let d = ws.last();
    assert(space_free(ws[ws.len() - 1]));
    if ws.len() == 1 {
        assert(join(ws, sp) == ws[0]);
        assert(split_spaces(e) == seq![e]);
        lemma_split_spaces_append(e, d);
        assert(e + d =~= d);
        assert(seq![e].update(0, e + d) =~= ws);
    } else {
        let pre = ws.drop_last();
        assert forall|i: int| 0 <= i < pre.len() implies space_free(#[trigger] pre[i]) by {
            assert(pre[i] == ws[i]);
        }
        lemma_split_spaces_join(pre);
        let x = join(pre, sp);
        assert(join(ws, sp) =~= (x + sp) + d);
        assert((x + sp).drop_last() =~= x);
        assert((x + sp).last() == ' ');
        assert(split_spaces(x + sp) == split_spaces(x).push(e));
        lemma_split_spaces_append(x + sp, d);
        let r = split_spaces(x).push(e);
        assert(r.update(r.len() - 1, r.last() + d) =~= ws);
    }
}

proof fn lemma_non_empty_of_non_empty_pieces(ws: Seq<Seq<char>>)
    requires
        forall|i: int| 0 <= i < ws.len() ==> (#[trigger] ws[i]).len() > 0,
    ensures
        non_empty(ws) == ws,
    decreases ws.len(),
{
    if ws.len() > 0 {
        let pre = ws.drop_last();
        assert forall|i: int| 0 <= i < pre.len() implies (#[trigger] pre[i]).len() > 0 by {
            assert(pre[i] == ws[i]);
        }
        lemma_non_empty_of_non_empty_pieces(pre);
        assert(ws[ws.len() - 1].len() > 0);
        assert(pre.push(ws.last()) =~= ws);
    }
}

/// Words joined by single spaces split back into the same words.
pub proof fn lemma_words_of_join(ws: Seq<Seq<char>>)
    requires
        forall|i: int| 0 <= i < ws.len() ==> is_word(#[trigger] ws[i]),
    ensures
        words(join(ws, seq![' '])) == ws,
{
    if ws.len() == 0 {
        let e = Seq::<char>::empty();
        assert(split_spaces(e) == seq![e]);
        assert(seq![e].drop_last() =~= Seq::<Seq<char>>::empty());
        assert(non_empty(Seq::<Seq<char>>::empty()) == Seq::<Seq<char>>::empty());
        assert(ws =~= Seq::<Seq<char>>::empty());
    } else {
        assert forall|i: int| 0 <= i < ws.len() implies space_free(#[trigger] ws[i]) by {
            assert(is_word(ws[i]));
        }
        assert forall|i: int| 0 <= i < ws.len() implies (#[trigger] ws[i]).len() > 0 by {
            assert(is_word(ws[i]));
        }
        lemma_split_spaces_join(ws);
        lemma_non_empty_of_non_empty_pieces(ws);
    }
}

proof fn lemma_split_spaces_pieces(s: Seq<char>)
    ensures
        forall|i: int| 0 <= i < split_spaces(s).len() ==> space_free(#[trigger] split_spaces(s)[i]),
    decreases s.len(),
{
    lemma_split_spaces_len(s);
    if s.len() > 0 {
        let s0 = s.drop_last();
        lemma_split_spaces_pieces(s0);
        lemma_split_spaces_len(s0);
        let r = split_spaces(s0);
        let r2 = split_spaces(s);
        if is_space_char(s.last()) {
            assert forall|i: int| 0 <= i < r2.len() implies space_free(#[trigger] r2[i]) by {
                if i < r.len() {
                    assert(r2[i] == r[i]);
                } else {
                    assert(r2[i] =~= Seq::<char>::empty());
                }
            }
        } else {
            assert forall|i: int| 0 <= i < r2.len() implies space_free(#[trigger] r2[i]) by {
                if i == r.len() - 1 {
                    let w = r.last().push(s.last());
                    assert(r2[i] == w);
                    assert(space_free(r[r.len() - 1]));
                    assert forall|j: int| 0 <= j < w.len() implies !is_space_char(#[trigger] w[j]) by {
                        if j < r.last().len() {
                            assert(w[j] == r.last()[j]);
                        }
                    }
                } else {
                    assert(r2[i] == r[i]);
                }
            }
        }
    }
}

proof fn lemma_non_empty_words(ws: Seq<Seq<char>>)
    requires
        forall|i: int| 0 <= i < ws.len() ==> space_free(#[trigger] ws[i]),
    ensures
        forall|i: int| 0 <= i < non_empty(ws).len() ==> is_word(#[trigger] non_empty(ws)[i]),
    decreases ws.len(),
{
    if ws.len() > 0 {
        let pre = ws.drop_last();
        assert forall|i: int| 0 <= i < pre.len() implies space_free(#[trigger] pre[i]) by {
            assert(pre[i] == ws[i]);
        }
        lemma_non_empty_words(pre);
        assert(space_free(ws[ws.len() - 1]));
        let n = non_empty(ws);
        let n0 = non_empty(pre);
        if ws.last().len() > 0 {
            assert forall|i: int| 0 <= i < n.len() implies is_word(#[trigger] n[i]) by {
                if i < n0.len() {
                    assert(n[i] == n0[i]);
                }
            }
        }
    }
}

/// Every word of a text is a word: not empty, and without whitespace.
pub proof fn lemma_words_are_words(s: Seq<char>)
    ensures
        forall|i: int| 0 <= i < words(s).len() ==> is_word(#[trigger] words(s)[i]),
{
    lemma_split_spaces_pieces(s);
    lemma_non_empty_words(split_spaces(s));
}

/// Appending text without `sep` to `s` extends the last piece of its split.
pub proof fn lemma_split_append_plain(s: Seq<char>, t: Seq<char>, sep: char)
    requires
        !t.contains(sep),
    ensures
        split_on(s + t, sep) == split_on(s, sep).update(
            split_on(s, sep).len() - 1,
            split_on(s, sep).last() + t,
        ),
    decreases t.len(),
{
    lemma_split_on_len(s, sep);
    if t.len() == 0 {
        assert(s + t =~= s);
        assert(split_on(s, sep).last() + t =~= split_on(s, sep).last());
        assert(split_on(s, sep).update(split_on(s, sep).len() - 1, split_on(s, sep).last())
            =~= split_on(s, sep));
    } else {
        let t0 = t.drop_last();
        assert(!t0.contains(sep)) by {
            if t0.contains(sep) {
                let k = choose|k: int| 0 <= k < t0.len() && t0[k] == sep;
                assert(t[k] == sep);
            }
        }
        lemma_split_append_plain(s, t0, sep);
        assert((s + t).drop_last() =~= s + t0);
        assert((s + t).last() == t.last());
        assert(t.last() != sep) by {
            assert(t[t.len() - 1] == t.last());
        }
        let r = split_on(s, sep);
        let r0 = split_on(s + t0, sep);
        assert(r0.len() == r.len());
        assert(r0.last() == r.last() + t0);
        assert((r.last() + t0).push(t.last()) =~= r.last() + t);
        lemma_split_on_len(s + t0, sep);
        assert(split_on(s + t, sep) =~= r0.update(r0.len() - 1, r0.last().push(t.last())));
        assert(split_on(s + t, sep) =~= r.update(r.len() - 1, r.last() + t));
    }
}

/// Appends `c` to `s`.
/// Calls `String::push`, which the standard library documents as appending
/// the character to the end of the string; this is believed, not proved.
#[verifier::external_body]
fn push_char(s: &mut String, c: char)
    ensures
        final(s)@ == old(s)@.push(c),
{
    s.push(c)
}

/// The characters of `s`, in order.
pub fn chars_of(s: &str) -> (res: Vec<char>)
    ensures
        res@ == s@,
{
    let mut res: Vec<char> = Vec::new();
    for c in it: s.chars()
        invariant
            res@ == it.seq().take(it.index() as int),
    {
        res.push(c);
    }
    res
}

/// The string made of the characters of `cs`.
pub fn string_of(cs: &[char]) -> (res: String)
    ensures
        res@ == cs@,
{
    let mut res = String::new();
    let n = cs.len();
    for i in 0..n
        invariant
            n == cs@.len(),
            res@ == cs@.take(i as int),
    {
        push_char(&mut res, cs[i]);
        assert(cs@.take(i + 1) =~= cs@.take(i as int).push(cs@[i as int]));
    }
    assert(cs@.take(n as int) =~= cs@);
    res
}

/// Whether `c` is a whitespace character.
pub fn is_space(c: char) -> (res: bool)
    ensures
        res == is_space_char(c),
{
    ('\u{9}' <= c && c <= '\u{d}') || c == ' ' || c == '\u{85}' || c == '\u{a0}' || c == '\u{1680}'
        || ('\u{2000}' <= c && c <= '\u{200a}') || c == '\u{2028}' || c == '\u{2029}' || c
        == '\u{202f}' || c == '\u{205f}' || c == '\u{3000}'
}

/// Whether `a` and `b` hold the same characters.
pub fn same_chars(a: &[char], b: &[char]) -> (res: bool)
    ensures
        res == (a@ == b@),
{
    if a.len() != b.len() {
        return false;
    }
    let n = a.len();
    for i in 0..n
        invariant
            n == a@.len(),
            n == b@.len(),
            forall|j: int| 0 <= j < i ==> a@[j] == b@[j],
    {
        if a[i] != b[i] {
            return false;
        }
    }
    assert(a@ =~= b@);
    true
}

/// Whether `a` holds exactly the characters of `s`.
pub fn chars_are(a: &[char], s: &str) -> (res: bool)
    ensures
        res == (a@ == s@),
{
    let b = chars_of(s);
    same_chars(a, b.as_slice())
}

/// Whether `p` is a prefix of `s`.
pub fn starts_with(s: &[char], p: &[char]) -> (res: bool)
    ensures
        res == has_prefix(s@, p@),
{
    if p.len() > s.len() {
        return false;
    }
    let n = p.len();
    for i in 0..n
        invariant
            n == p@.len(),
            n <= s@.len(),
            forall|j: int| 0 <= j < i ==> s@[j] == p@[j],
    {
        if s[i] != p[i] {
            return false;
        }
    }
    assert(s@.take(n as int) =~= p@);
    true
}

/// `s` split at every occurrence of `sep`.
pub fn split_at_char(s: &[char], sep: char) -> (res: Vec<Vec<char>>)
    ensures
        views(res@) == split_on(s@, sep),
{
    let mut parts: Vec<Vec<char>> = Vec::new();
    let mut cur: Vec<char> = Vec::new();
    let n = s.len();
    assert(s@.take(0) =~= Seq::<char>::empty());
    for i in 0..n
        invariant
            n == s@.len(),
            views(parts@).push(cur@) =~= split_on(s@.take(i as int), sep),
    {
        let c = s[i];
        let ghost pre = s@.take(i as int);
        assert(s@.take(i + 1).drop_last() =~= pre);
        assert(s@.take(i + 1).last() == c);
        proof {
            lemma_split_on_len(pre, sep);
        }
        if c == sep {
            parts.push(cur);
            cur = Vec::new();
            assert(views(parts@).push(cur@) =~= split_on(s@.take(i + 1), sep));
        } else {
            cur.push(c);
            assert(views(parts@).push(cur@) =~= split_on(s@.take(i + 1), sep));
        }
    }
    assert(s@.take(n as int) =~= s@);
    parts.push(cur);
    assert(views(parts@) =~= split_on(s@, sep));
    parts
}

/// The whitespace-separated words of `s`.
pub fn split_words(s: &[char]) -> (res: Vec<Vec<char>>)
    ensures
        views(res@) == words(s@),
{
    let mut parts: Vec<Vec<char>> = Vec::new();
    let mut cur: Vec<char> = Vec::new();
    let n = s.len();
    assert(s@.take(0) =~= Seq::<char>::empty());
    for i in 0..n
        invariant
            n == s@.len(),
            split_spaces(s@.take(i as int)).len() >= 1,
            views(parts@) =~= non_empty(split_spaces(s@.take(i as int)).drop_last()),
            cur@ =~= split_spaces(s@.take(i as int)).last(),
    {
        let c = s[i];
        let ghost pre = s@.take(i as int);
        let ghost r = split_spaces(pre);
        assert(s@.take(i + 1).drop_last() =~= pre);
        assert(s@.take(i + 1).last() == c);
        if is_space(c) {
            assert(split_spaces(s@.take(i + 1)) == r.push(Seq::<char>::empty()));
            assert(r.push(Seq::<char>::empty()).drop_last() =~= r);
            assert(r =~= r.drop_last().push(r.last()));
            if cur.len() > 0 {
                parts.push(cur);
            }
            cur = Vec::new();
        } else {
            cur.push(c);
            let ghost r2 = r.update(r.len() - 1, r.last().push(c));
            assert(split_spaces(s@.take(i + 1)) == r2);
            assert(r2.drop_last() =~= r.drop_last());
        }
    }
    assert(s@.take(n as int) =~= s@);
    let ghost r = split_spaces(s@);
    assert(r =~= r.drop_last().push(r.last()));
    if cur.len() > 0 {
        parts.push(cur);
    }
    assert(views(parts@) =~= non_empty(r));
    parts
}

/// Appends the characters of `s` to `res`.
pub fn append_chars(res: &mut Vec<char>, s: &[char])
    ensures
        final(res)@ == old(res)@ + s@,
{
    let n = s.len();
    for i in 0..n
        invariant
            n == s@.len(),
            res@ =~= old(res)@ + s@.take(i as int),
    {
        res.push(s[i]);
        assert(s@.take(i + 1) =~= s@.take(i as int).push(s@[i as int]));
    }
    assert(s@.take(n as int) =~= s@);
}

/// The pieces of `parts` with `sep` between each two of them.
pub fn join_chars(parts: &Vec<Vec<char>>, sep: &[char]) -> (res: Vec<char>)
    ensures
        res@ == join(views(parts@), sep@),
{
    let mut res: Vec<char> = Vec::new();
    let n = parts.len();
    for i in 0..n
        invariant
            n == parts@.len(),
            res@ =~= join(views(parts@).take(i as int), sep@),
    {
        assert(views(parts@).take(i + 1).drop_last() =~= views(parts@).take(i as int));
        if i > 0 {
            append_chars(&mut res, sep);
        }
        append_chars(&mut res, parts[i].as_slice());
    }
    assert(views(parts@).take(n as int) =~= views(parts@));
    res
}

} // verus!
