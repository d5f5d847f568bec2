//! Ignore lists: which names a directory leaves out of its report.
use vstd::prelude::*;
use crate::metrics::{char_is_whitespace, is_white_space, pieces};

verus! {

/// The text of each string.
pub open spec fn names_of(v: Seq<String>) -> Seq<Seq<char>> {
    v.map_values(|s: String| s@)
}

/// `l` without its leading whitespace.
pub open spec fn trim_start(l: Seq<char>) -> Seq<char>
    decreases l.len(),
{
    if l.len() > 0 && is_white_space(l[0]) {
        trim_start(l.drop_first())
    } else {
        l
    }
}

/// `l` without its trailing whitespace.
pub open spec fn trim_end(l: Seq<char>) -> Seq<char>
    decreases l.len(),
{
    if l.len() > 0 && is_white_space(l.last()) {
        trim_end(l.drop_last())
    } else {
        l
    }
}

/// `l` without whitespace at either end.
pub open spec fn trim(l: Seq<char>) -> Seq<char> {
    trim_end(trim_start(l))
}

/// The entries that the lines `ls` of an ignore list name: each line trimmed,
/// lines that trim to nothing left out.
pub open spec fn entries_of_lines(ls: Seq<Seq<char>>) -> Seq<Seq<char>>
    decreases ls.len(),
{
    if ls.len() == 0 {
        Seq::empty()
    } else {
        let prev = entries_of_lines(ls.drop_last());
        if trim(ls.last()).len() > 0 {
            prev.push(trim(ls.last()))
        } else {
            prev
        }
    }
}

/// The entries of the ignore list `t`, one per line.
pub open spec fn ignore_entries(t: Seq<char>) -> Seq<Seq<char>> {
    entries_of_lines(crate::metrics::lines_of(t))
}

/// The name of the ignore-list file that a directory may hold.
pub open spec fn ignore_file_name_spec() -> Seq<char> {
    seq!['.', 'l', 'c', 'i', 'g', 'n', 'o', 'r', 'e']
}

/// The name of the ignore-list file that a directory may hold.
pub fn ignore_file_name() -> (r: String)
    ensures
        r@ == ignore_file_name_spec(),
{
    let s = ".lcignore";
    proof {
        reveal_strlit(".lcignore");
    }
    assert(s@ =~= ignore_file_name_spec());
    s.to_owned()
}

/// Whether `name` is one of `ignored`.
pub fn is_ignored(name: &String, ignored: &Vec<String>) -> (r: bool)
    ensures
        r == names_of(ignored@).contains(name@),
{
    let n = ignored.len();
    for i in 0..n
        invariant
            n == ignored@.len(),
            forall|j: int| 0 <= j < i ==> ignored@[j]@ != name@,
    {
        if ignored[i] == *name {
            assert(names_of(ignored@)[i as int] == name@);
            return true;
        }
    }
    assert forall|j: int| 0 <= j < names_of(ignored@).len() implies #[trigger] names_of(
        ignored@,
    )[j] != name@ by {
        assert(names_of(ignored@)[j] == ignored@[j]@);
    }
    false
}

/// The bounds of `cs[a..b]` with whitespace trimmed from both ends.
fn trim_bounds(cs: &Vec<char>, a: usize, b: usize) -> (r: (usize, usize))
    requires
        a <= b <= cs@.len(),
    ensures
        a <= r.0 <= r.1 <= b,
        cs@.subrange(r.0 as int, r.1 as int) == trim(cs@.subrange(a as int, b as int)),
{
    let mut s: usize = a;
    while s < b && char_is_whitespace(cs[s])
        invariant
            a <= s <= b <= cs@.len(),
            trim_start(cs@.subrange(a as int, b as int)) == trim_start(
                cs@.subrange(s as int, b as int),
            ),
        decreases b - s,
    {
        assert(cs@.subrange(s as int, b as int).drop_first() =~= cs@.subrange(
            s + 1,
            b as int,
        ));
        s = s + 1;
    }
    let mut e: usize = b;
    while e > s && char_is_whitespace(cs[e - 1])
        invariant
            a <= s <= e <= b <= cs@.len(),
            trim_start(cs@.subrange(a as int, b as int)) == cs@.subrange(s as int, b as int),
            trim_end(cs@.subrange(s as int, b as int)) == trim_end(
                cs@.subrange(s as int, e as int),
            ),
        decreases e - s,
    {
        assert(cs@.subrange(s as int, e as int).drop_last() =~= cs@.subrange(
            s as int,
            e - 1,
        ));
        e = e - 1;
    }
    (s, e)
}

/// The entries of the ignore list `text`: one per line, each trimmed of
/// whitespace, lines left blank by that left out.
pub fn parse_ignore_list(text: &str) -> (r: Vec<String>)
    ensures
        names_of(r@) == ignore_entries(text@),
{
    let ghost t = text@;
    let mut cs: Vec<char> = Vec::new();
    for c in it: text.chars()
        invariant
            it.seq() == t,
            cs@ == t.subrange(0, it.index() as int),
    {
        cs.push(c);
    }
    assert(cs@ =~= t);
    let n = cs.len();
    let mut out: Vec<String> = Vec::new();
    let mut start: usize = 0;
    let mut i: usize = 0;
    assert(t.subrange(0, 0) =~= Seq::<char>::empty());
    assert(seq![Seq::<char>::empty()].drop_last() =~= Seq::<Seq<char>>::empty());
    while i < n
        invariant
            n == t.len(),
            cs@ == t,
            start <= i <= n,
            text@ == t,
            pieces(t.subrange(0, i as int)).len() >= 1,
            pieces(t.subrange(0, i as int)).last() == t.subrange(start as int, i as int),
            names_of(out@) == entries_of_lines(pieces(t.subrange(0, i as int)).drop_last()),
        decreases n - i,
    {
        let c = cs[i];
        let ghost pre = t.subrange(0, i as int);
        let ghost post = t.subrange(0, i + 1);
        let ghost p = pieces(pre);
        assert(post.drop_last() =~= pre);
        assert(post.last() == c);
        if c == '\n' {
            assert(pieces(post) == p.push(Seq::empty()));
            assert(pieces(post).drop_last() =~= p);
            let (s, e) = trim_bounds(&cs, start, i);
            if s < e {
                let entry = text.substring_char(s, e).to_owned();
                out.push(entry);
                assert(names_of(out@) =~= names_of(out@.drop_last()).push(entry@));
            }
            assert(pieces(post).last() =~= t.subrange(i + 1, i + 1));
            start = i + 1;
        } else {
            let ghost q = p.update(p.len() - 1, p.last().push(c));
            assert(pieces(post) == q);
            assert(q.drop_last() =~= p.drop_last());
            assert(q.last() =~= t.subrange(start as int, i + 1));
        }
        i = i + 1;
    }
    assert(t.subrange(0, n as int) =~= t);
    let ghost p = pieces(t);
    let (s, e) = trim_bounds(&cs, start, n);
    if s < e {
        let entry = text.substring_char(s, e).to_owned();
        out.push(entry);
        assert(names_of(out@) =~= names_of(out@.drop_last()).push(entry@));
    }
    assert(trim(Seq::<char>::empty()) =~= Seq::<char>::empty());
    out
}

/// The names that a directory leaves out: those given for every directory,
/// the entries of its own ignore list when it holds one, and the name of the
/// ignore-list file itself.
pub open spec fn ignore_set(extra: Seq<Seq<char>>, list: Option<Seq<char>>) -> Seq<Seq<char>> {
    let own = match list {
        Some(t) => ignore_entries(t),
        None => Seq::empty(),
    };
    extra + own + seq![ignore_file_name_spec()]
}

/// The names that a directory leaves out, from the names given for every
/// directory and the text of the directory's ignore list, if it has one.
pub fn effective_ignore_set(extra: &Vec<String>, list: Option<&String>) -> (r: Vec<String>)
    ensures
        names_of(r@) == ignore_set(
            names_of(extra@),
            match list {
                Some(t) => Some(t@),
                None => None,
            },
        ),
{
    let mut r = extra.clone();
    assert(names_of(r@) == names_of(extra@));
    let ghost base = r@;
    match list {
        Some(t) => {
            let mut own = parse_ignore_list(t.as_str());
            r.append(&mut own);
        },
        None => {},
    }
    let name = ignore_file_name();
    r.push(name);
    assert(names_of(r@) =~= ignore_set(
        names_of(extra@),
        match list {
            Some(t) => Some(t@),
            None => None,
        },
    ));
    r
}

} // verus!
