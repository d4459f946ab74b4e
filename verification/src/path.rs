//! Resolution of `.` and `..` in slash-separated paths.

use vstd::prelude::*;
use crate::text::{
    append_chars, chars_of, join, join_chars, lemma_split_append_plain, lemma_split_on_len,
    split_at_char, split_on, string_of, views,
};

verus! {

/// The effect of one path component on the list of directories reached so
/// far: `.` and empty components change nothing, `..` leaves the last
/// directory (and stays at the root when there is none), and any other
/// component enters a directory of that name.
pub open spec fn apply_component(dirs: Seq<Seq<char>>, part: Seq<char>) -> Seq<Seq<char>> {
    if part.len() == 0 || part == seq!['.'] {
        dirs
    } else if part == seq!['.', '.'] {
        if dirs.len() > 0 {
            dirs.drop_last()
        } else {
            dirs
        }
    } else {
        dirs.push(part)
    }
}

/// The directories reached by following `parts` from the root.
pub open spec fn resolve(parts: Seq<Seq<char>>) -> Seq<Seq<char>>
    decreases parts.len(),
{
    if parts.len() == 0 {
        Seq::empty()
    } else {
        apply_component(resolve(parts.drop_last()), parts.last())
    }
}

/// The absolute path that `p` names: its components resolved from the root,
/// written after a leading `/` and separated by `/`.
pub open spec fn normalized(p: Seq<char>) -> Seq<char> {
    seq!['/'] + join(resolve(split_on(p, '/')), seq!['/'])
}

/// A component that resolution keeps as it is: not empty, not `.` or `..`,
/// and free of `/`.
pub open spec fn is_plain_component(d: Seq<char>) -> bool {
    &&& d.len() > 0
    &&& d != seq!['.']
    &&& d != seq!['.', '.']
    &&& !d.contains('/')
}

/// Every directory in `dirs` is a plain component.
pub open spec fn all_plain(dirs: Seq<Seq<char>>) -> bool {
    forall|i: int| 0 <= i < dirs.len() ==> is_plain_component(#[trigger] dirs[i])
}

/// Resolves the `.` and `..` components of the slash-separated path `p` and
/// returns the absolute path it names, e.g. `a/./b/../c` gives `/a/c`.
pub fn normalize_path(p: &str) -> (res: String)
    ensures
        res@ == normalized(p@),
{
    let cs = chars_of(p);
    let parts = split_at_char(cs.as_slice(), '/');
    let mut dirs: Vec<Vec<char>> = Vec::new();
    let n = parts.len();
    for i in 0..n
        invariant
            n == parts@.len(),
            views(parts@) == split_on(p@, '/'),
            views(dirs@) =~= resolve(views(parts@).take(i as int)),
    {
        assert(views(parts@).take(i + 1).drop_last() =~= views(parts@).take(i as int));
        let part = &parts[i];
        if part.len() == 0 || (part.len() == 1 && part[0] == '.') {
            assert(part@.len() == 0 || part@ =~= seq!['.']);
        } else if part.len() == 2 && part[0] == '.' && part[1] == '.' {
            assert(part@ =~= seq!['.', '.']);
            if dirs.len() > 0 {
                dirs.pop();
            }
        } else {
            assert(part@ != seq!['.'] && part@ != seq!['.', '.']);
            dirs.push(part.clone());
        }
    }
    assert(views(parts@).take(n as int) =~= views(parts@));
    let mut out: Vec<char> = Vec::new();
    out.push('/');
    let slash = ['/'];
    let joined = join_chars(&dirs, slash.as_slice());
    append_chars(&mut out, joined.as_slice());
    assert(slash@ =~= seq!['/']);
    assert(out@ =~= normalized(p@));
    string_of(out.as_slice())
}

// ---------------------------------------------------------------------------
// Normalisation is idempotent.

proof fn lemma_split_pieces_avoid(s: Seq<char>, sep: char)
    ensures
        forall|i: int| 0 <= i < split_on(s, sep).len() ==> !(#[trigger] split_on(s, sep)[i]).contains(sep),
    decreases s.len(),
{
    lemma_split_on_len(s, sep);
    if s.len() > 0 {
        let r = split_on(s.drop_last(), sep);
        lemma_split_pieces_avoid(s.drop_last(), sep);
        lemma_split_on_len(s.drop_last(), sep);
        assert(s.drop_last().len() < s.len());
        if s.last() != sep {
            assert forall|i: int| 0 <= i < split_on(s, sep).len() implies !(#[trigger] split_on(s, sep)[i]).contains(sep) by {
                if i == r.len() - 1 {
                    let w = r.last().push(s.last());
                    assert(split_on(s, sep)[i] == w);
                    if w.contains(sep) {
                        let k = choose|k: int| 0 <= k < w.len() && w[k] == sep;
                        assert(r.last()[k] == sep);
                    }
                } else {
                    assert(split_on(s, sep)[i] == r[i]);
                }
            }
        } else {
            assert forall|i: int| 0 <= i < split_on(s, sep).len() implies !(#[trigger] split_on(s, sep)[i]).contains(sep) by {
                if i < r.len() {
                    assert(split_on(s, sep)[i] == r[i]);
                } else {
                    assert(split_on(s, sep)[i] =~= Seq::<char>::empty());
                }
            }
        }
    }
}

proof fn lemma_resolve_plain(parts: Seq<Seq<char>>)
    requires
        forall|i: int| 0 <= i < parts.len() ==> !(#[trigger] parts[i]).contains('/'),
    ensures
        all_plain(resolve(parts)),
    decreases parts.len(),
{
    if parts.len() > 0 {
        let pre = parts.drop_last();
        assert forall|i: int| 0 <= i < pre.len() implies !(#[trigger] pre[i]).contains('/') by {
            assert(pre[i] == parts[i]);
        }
        lemma_resolve_plain(pre);
        let d = resolve(pre);
        let part = parts.last();
        assert(!parts[parts.len() - 1].contains('/'));
        let r = resolve(parts);
        assert forall|i: int| 0 <= i < r.len() implies is_plain_component(#[trigger] r[i]) by {
            if part.len() == 0 || part == seq!['.'] {
            } else if part == seq!['.', '.'] {
                if d.len() > 0 {
                    assert(r[i] == d[i]);
                }
            } else {
                if i < d.len() {
                    assert(r[i] == d[i]);
                }
            }
        }
    }
}

proof fn lemma_split_of_normalized(dirs: Seq<Seq<char>>)
    requires
        all_plain(dirs),
        dirs.len() > 0,
    ensures
        split_on(seq!['/'] + join(dirs, seq!['/']), '/') == seq![Seq::<char>::empty()] + dirs,
    decreases dirs.len(),
{
    let sl = seq!['/'];
    let e = Seq::<char>::empty();
    let d = dirs.last();
    assert(is_plain_component(dirs[dirs.len() - 1]));
    if dirs.len() == 1 {
        assert(join(dirs, sl) == dirs[0]);
        assert(split_on(sl, '/') =~= seq![e, e]) by {
            assert(sl.drop_last() =~= e);
            assert(split_on(e, '/') == seq![e]);
        }
        lemma_split_append_plain(sl, d, '/');
        assert(seq![e, e].update(1, e + d) =~= seq![e] + dirs);
    } else {
        let pre = dirs.drop_last();
        assert forall|i: int| 0 <= i < pre.len() implies is_plain_component(#[trigger] pre[i]) by {
            assert(pre[i] == dirs[i]);
        }
        lemma_split_of_normalized(pre);
        let x = sl + join(pre, sl);
        assert(sl + join(dirs, sl) =~= (x + sl) + d);
        assert((x + sl).drop_last() =~= x);
        assert(split_on(x + sl, '/') == split_on(x, '/').push(e));
        lemma_split_append_plain(x + sl, d, '/');
        let r = split_on(x, '/').push(e);
        assert(r.update(r.len() - 1, r.last() + d) =~= seq![e] + dirs);
    }
}

proof fn lemma_resolve_plain_prefix(dirs: Seq<Seq<char>>)
    requires
        all_plain(dirs),
    ensures
        resolve(seq![Seq::<char>::empty()] + dirs) == dirs,
    decreases dirs.len(),
{
    let e = Seq::<char>::empty();
    if dirs.len() == 0 {
        assert(seq![e] + dirs =~= seq![e]);
        assert(seq![e].drop_last() =~= Seq::<Seq<char>>::empty());
        assert(resolve(Seq::<Seq<char>>::empty()) == Seq::<Seq<char>>::empty());
        assert(resolve(seq![e]) == apply_component(resolve(Seq::<Seq<char>>::empty()), e));
    } else {
        let pre = dirs.drop_last();
        assert forall|i: int| 0 <= i < pre.len() implies is_plain_component(#[trigger] pre[i]) by {
            assert(pre[i] == dirs[i]);
        }
        lemma_resolve_plain_prefix(pre);
        assert((seq![e] + dirs).drop_last() =~= seq![e] + pre);
        assert(is_plain_component(dirs[dirs.len() - 1]));
        assert(pre.push(dirs.last()) =~= dirs);
        assert((seq![e] + dirs).last() == dirs.last());
        assert(resolve(seq![e] + dirs) == apply_component(resolve(seq![e] + pre), dirs.last()));
    }
}

/// Normalising a path that is already normalised gives it back unchanged.
pub proof fn lemma_normalize_idempotent(p: Seq<char>)
    ensures
        normalized(normalized(p)) == normalized(p),
{
    let dirs = resolve(split_on(p, '/'));
    lemma_split_pieces_avoid(p, '/');
    lemma_resolve_plain(split_on(p, '/'));
    let e = Seq::<char>::empty();
    if dirs.len() == 0 {
        assert(normalized(p) =~= seq!['/']);
        assert(split_on(seq!['/'], '/') =~= seq![e, e]) by {
            assert(seq!['/'].drop_last() =~= e);
            assert(split_on(e, '/') == seq![e]);
        }
        assert(seq![e, e].drop_last() =~= seq![e]);
        assert(seq![e].drop_last() =~= Seq::<Seq<char>>::empty());
        assert(resolve(Seq::<Seq<char>>::empty()) == Seq::<Seq<char>>::empty());
        assert(resolve(seq![e]) == apply_component(resolve(Seq::<Seq<char>>::empty()), e));
        assert(resolve(seq![e, e]) == apply_component(resolve(seq![e]), e));
    } else {
        lemma_split_of_normalized(dirs);
        lemma_resolve_plain_prefix(dirs);
    }
}

proof fn lemma_split_join_plain(cs: Seq<Seq<char>>)
    requires
        forall|i: int| 0 <= i < cs.len() ==> !(#[trigger] cs[i]).contains('/'),
        cs.len() > 0,
    ensures
        split_on(join(cs, seq!['/']), '/') == cs,
    decreases cs.len(),
{
    let sl = seq!['/'];
    let e = Seq::<char>::empty();
    let d = cs.last();
    assert(!cs[cs.len() - 1].contains('/'));
    if cs.len() == 1 {
        assert(join(cs, sl) == cs[0]);
        assert(split_on(e, '/') == seq![e]);
        lemma_split_append_plain(e, d, '/');
        assert(e + d =~= d);
        assert(seq![e].update(0, e + d) =~= cs);
    } else {
        let pre = cs.drop_last();
        assert forall|i: int| 0 <= i < pre.len() implies !(#[trigger] pre[i]).contains('/') by {
            assert(pre[i] == cs[i]);
        }
        lemma_split_join_plain(pre);
        let x = join(pre, sl);
        assert(join(cs, sl) =~= (x + sl) + d);
        assert((x + sl).drop_last() =~= x);
        assert(split_on(x + sl, '/') == split_on(x, '/').push(e));
        lemma_split_append_plain(x + sl, d, '/');
        let r = split_on(x, '/').push(e);
        assert(r.update(r.len() - 1, r.last() + d) =~= cs);
    }
}

proof fn lemma_resolve_all_plain(cs: Seq<Seq<char>>)
    requires
        all_plain(cs),
    ensures
        resolve(cs) == cs,
    decreases cs.len(),
{
    if cs.len() > 0 {
        let pre = cs.drop_last();
        assert forall|i: int| 0 <= i < pre.len() implies is_plain_component(#[trigger] pre[i]) by {
            assert(pre[i] == cs[i]);
        }
        lemma_resolve_all_plain(pre);
        assert(is_plain_component(cs[cs.len() - 1]));
        assert(pre.push(cs.last()) =~= cs);
    }
}

/// A path made of plain components (not empty, not `.` or `..`, without
/// `/`) names itself: written relative or absolute, it normalises to the
/// same components, all of them and in order, after a leading `/`.
pub proof fn lemma_normalize_plain_path(cs: Seq<Seq<char>>)
    requires
        cs.len() > 0,
        all_plain(cs),
    ensures
        normalized(join(cs, seq!['/'])) == seq!['/'] + join(cs, seq!['/']),
        normalized(seq!['/'] + join(cs, seq!['/'])) == seq!['/'] + join(cs, seq!['/']),
{
    assert forall|i: int| 0 <= i < cs.len() implies !(#[trigger] cs[i]).contains('/') by {
        assert(is_plain_component(cs[i]));
    }
    lemma_split_join_plain(cs);
    lemma_resolve_all_plain(cs);
    lemma_split_of_normalized(cs);
    lemma_resolve_plain_prefix(cs);
}

/// `.` stays in the current directory and `..` goes up one: after plain
/// components, a trailing `.` changes nothing and a plain component
/// followed by `..` cancels out.
pub proof fn lemma_dot_and_dot_dot(cs: Seq<Seq<char>>, d: Seq<char>)
    requires
        cs.len() > 0,
        all_plain(cs),
        is_plain_component(d),
    ensures
        normalized(join(cs.push(seq!['.']), seq!['/'])) == seq!['/'] + join(cs, seq!['/']),
        normalized(join(cs.push(d).push(seq!['.', '.']), seq!['/'])) == seq!['/'] + join(cs, seq!['/']),
{
    assert forall|i: int| 0 <= i < cs.len() implies !(#[trigger] cs[i]).contains('/') by {
        assert(is_plain_component(cs[i]));
    }
    let a = cs.push(seq!['.']);
    let b = cs.push(d).push(seq!['.', '.']);
    assert forall|i: int| 0 <= i < a.len() implies !(#[trigger] a[i]).contains('/') by {
        if i < cs.len() {
            assert(a[i] == cs[i]);
        } else {
            assert(a[i] == seq!['.']);
            if a[i].contains('/') {
                let j = choose|j: int| 0 <= j < a[i].len() && a[i][j] == '/';
                assert(false);
            }
        }
    }
    assert forall|i: int| 0 <= i < b.len() implies !(#[trigger] b[i]).contains('/') by {
        if i < cs.len() {
            assert(b[i] == cs[i]);
        } else if i == cs.len() {
            assert(b[i] == d);
        } else {
            assert(b[i] == seq!['.', '.']);
            if b[i].contains('/') {
                let j = choose|j: int| 0 <= j < b[i].len() && b[i][j] == '/';
                assert(false);
            }
        }
    }
    lemma_split_join_plain(a);
    lemma_split_join_plain(b);
    lemma_resolve_all_plain(cs);
    assert(a.drop_last() =~= cs);
    assert(b.drop_last() =~= cs.push(d));
    assert(cs.push(d).drop_last() =~= cs);
    assert(resolve(a) == cs);
    assert(resolve(cs.push(d)) == cs.push(d));
    assert(resolve(b) == cs);
    lemma_split_join_plain(cs);
    lemma_split_of_normalized(cs);
    lemma_resolve_plain_prefix(cs);
}

/// A normalised path always starts at the root, and every directory it
/// passes through is a plain component.
pub proof fn lemma_normalized_shape(p: Seq<char>)
    ensures
        normalized(p).len() >= 1,
        normalized(p)[0] == '/',
        all_plain(resolve(split_on(p, '/'))),
{
    lemma_split_pieces_avoid(p, '/');
    lemma_resolve_plain(split_on(p, '/'));
}

} // verus!
