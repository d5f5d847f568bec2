//! Putting a directory listing in order of name, so that a report does not
//! depend on the order in which the file system lists entries.
use vstd::prelude::*;
use crate::walk::Entry;

verus! {

broadcast use vstd::seq_lib::group_to_multiset_ensures;

/// The name of an entry.
pub open spec fn entry_name(e: Entry) -> Seq<char> {
    match e {
        Entry::File { name, .. } => name@,
        Entry::Dir { name, .. } => name@,
    }
}

/// `a` comes before `b` in the lexicographic order of code points.
pub open spec fn name_lt(a: Seq<char>, b: Seq<char>) -> bool
    decreases a.len(),
{
    if a.len() == 0 {
        b.len() > 0
    } else if b.len() == 0 {
        false
    } else if a[0] != b[0] {
        a[0] < b[0]
    } else {
        name_lt(a.drop_first(), b.drop_first())
    }
}

/// The entries `s` are in order of name.
pub open spec fn sorted_by_name(s: Seq<Entry>) -> bool {
    forall|i: int, j: int|
        0 <= i < j < s.len() ==> !name_lt(entry_name(#[trigger] s[j]), entry_name(#[trigger] s[i]))
}

/// No two of the entries `s` share a name.
pub open spec fn distinct_names(s: Seq<Entry>) -> bool {
    forall|i: int, j: int|
        0 <= i < s.len() && 0 <= j < s.len() && i != j ==> entry_name(#[trigger] s[i])
            != entry_name(#[trigger] s[j])
}

proof fn lemma_name_lt_transitive(a: Seq<char>, b: Seq<char>, c: Seq<char>)
    requires
        name_lt(a, b),
        name_lt(b, c),
    ensures
        name_lt(a, c),
    decreases a.len(),
{
    if a.len() > 0 && b.len() > 0 && c.len() > 0 && a[0] == b[0] && b[0] == c[0] {
        lemma_name_lt_transitive(a.drop_first(), b.drop_first(), c.drop_first());
    }
}

proof fn lemma_name_lt_irreflexive(a: Seq<char>)
    ensures
        !name_lt(a, a),
    decreases a.len(),
{
    if a.len() > 0 {
        lemma_name_lt_irreflexive(a.drop_first());
    }
}

proof fn lemma_name_lt_total(a: Seq<char>, b: Seq<char>)
    ensures
        a == b || name_lt(a, b) || name_lt(b, a),
    decreases a.len(),
{
    if a.len() == 0 && b.len() == 0 {
        assert(a =~= b);
    } else if a.len() > 0 && b.len() > 0 {
        if a[0] == b[0] {
            lemma_name_lt_total(a.drop_first(), b.drop_first());
            if a.drop_first() == b.drop_first() {
                assert(a =~= seq![a[0]] + a.drop_first());
                assert(b =~= seq![b[0]] + b.drop_first());
            }
        }
    }
}

/// The characters of `s`.
fn chars_of(s: &String) -> (r: Vec<char>)
    ensures
        r@ == s@,
{
    let mut cs: Vec<char> = Vec::new();
    for c in it: s.as_str().chars()
        invariant
            it.seq() == s@,
            cs@ == s@.subrange(0, it.index() as int),
    {
        cs.push(c);
    }
    assert(cs@ =~= s@);
    cs
}

/// Whether `a` comes before `b` in order of name.
pub fn name_less(a: &String, b: &String) -> (r: bool)
    ensures
        r == name_lt(a@, b@),
{
    let x = chars_of(a);
    let y = chars_of(b);
    let mut i: usize = 0;
    assert(x@.subrange(0, x@.len() as int) =~= x@);
    assert(y@.subrange(0, y@.len() as int) =~= y@);
    while i < x.len() && i < y.len() && x[i] == y[i]
        invariant
            i <= x@.len(),
            i <= y@.len(),
            name_lt(a@, b@) == name_lt(
                x@.subrange(i as int, x@.len() as int),
                y@.subrange(i as int, y@.len() as int),
            ),
            x@ == a@,
            y@ == b@,
        decreases x@.len() - i,
    {
        assert(x@.subrange(i as int, x@.len() as int).drop_first() =~= x@.subrange(
            i + 1,
            x@.len() as int,
        ));
        assert(y@.subrange(i as int, y@.len() as int).drop_first() =~= y@.subrange(
            i + 1,
            y@.len() as int,
        ));
        i = i + 1;
    }
    let ghost xs = x@.subrange(i as int, x@.len() as int);
    let ghost ys = y@.subrange(i as int, y@.len() as int);
    if i == x.len() {
        i < y.len()
    } else if i == y.len() {
        false
    } else {
        assert(xs[0] == x@[i as int] && ys[0] == y@[i as int]);
        x[i] < y[i]
    }
}

fn name_ref(e: &Entry) -> (r: &String)
    ensures
        r@ == entry_name(*e),
{
    match e {
        Entry::File { name, .. } => name,
        Entry::Dir { name, .. } => name,
    }
}

/// The entries `v` in order of name.
pub fn sort_by_name(v: Vec<Entry>) -> (r: Vec<Entry>)
    ensures
        r@.to_multiset() == v@.to_multiset(),
        sorted_by_name(r@),
{
    let mut rest = v;
    let mut out: Vec<Entry> = Vec::new();
    while rest.len() > 0
        invariant
            out@.to_multiset().add(rest@.to_multiset()) == v@.to_multiset(),
            sorted_by_name(out@),
        decreases rest.len(),
    {
        let ghost before_rest = rest@;
        let e = rest.pop().unwrap();
        assert(before_rest =~= rest@.push(e));
        let mut p: usize = 0;
        let mut found = false;
        while p < out.len() && !found
            invariant
                p <= out@.len(),
                forall|k: int| 0 <= k < p ==> !name_lt(entry_name(e), entry_name(#[trigger] out@[k])),
                found ==> p < out@.len() && name_lt(entry_name(e), entry_name(out@[p as int])),
            decreases out@.len() - p, if found { 0int } else { 1int },
        {
            if name_less(name_ref(&e), name_ref(&out[p])) {
                found = true;
            } else {
                p = p + 1;
            }
        }
        let ghost before = out@;
        out.insert(p, e);
        assert(out@ == before.insert(p as int, e));
        assert forall|i: int, j: int| 0 <= i < j < out@.len() implies !name_lt(
            entry_name(#[trigger] out@[j]),
            entry_name(#[trigger] out@[i]),
        ) by {
            if j < p {
                assert(out@[i] == before[i] && out@[j] == before[j]);
            } else if j == p {
                assert(out@[i] == before[i]);
            } else if i == p {
                assert(out@[j] == before[j - 1]);
                if name_lt(entry_name(before[j - 1]), entry_name(e)) {
                    if j - 1 > p {
                        assert(!name_lt(entry_name(before[j - 1]), entry_name(before[p as int])));
                    }
                    lemma_name_lt_transitive(
                        entry_name(before[j - 1]),
                        entry_name(e),
                        entry_name(before[p as int]),
                    );
                    lemma_name_lt_irreflexive(entry_name(before[p as int]));
                }
            } else if i < p {
                assert(out@[i] == before[i] && out@[j] == before[j - 1]);
            } else {
                assert(out@[i] == before[i - 1] && out@[j] == before[j - 1]);
            }
        }
    }
    out
}

/// A directory's listing, put in order of name, does not depend on the order
/// in which it was listed: any two listings of the same entries, no two of
/// them sharing a name, are equal once each is in order of name.
pub proof fn lemma_order_of_listing_irrelevant(x: Seq<Entry>, y: Seq<Entry>)
    requires
        x.to_multiset() == y.to_multiset(),
        distinct_names(x),
        sorted_by_name(x),
        sorted_by_name(y),
    ensures
        x == y,
    decreases x.len(),
{
    broadcast use vstd::multiset::group_multiset_axioms;

    if x.len() == 0 || y.len() == 0 {
        if x.len() > 0 {
            assert(x.to_multiset().count(x[0]) > 0);
        }
        if y.len() > 0 {
            assert(y.to_multiset().count(y[0]) > 0);
        }
        assert(x =~= y);
    } else {
        assert(x.to_multiset().contains(y[0]));
        assert(y.to_multiset().contains(x[0]));
        let i = choose|i: int| #![trigger x[i]] 0 <= i < x.len() && x[i] == y[0];
        let j = choose|j: int| #![trigger y[j]] 0 <= j < y.len() && y[j] == x[0];
        if i != 0 {
            assert(!name_lt(entry_name(x[i]), entry_name(x[0])));
        }
        if j != 0 {
            assert(!name_lt(entry_name(y[j]), entry_name(y[0])));
        }
        lemma_name_lt_total(entry_name(x[0]), entry_name(y[0]));
        assert(x[0] == y[0]);
        assert(x.drop_first() =~= x.remove(0));
        assert(y.drop_first() =~= y.remove(0));
        vstd::seq_lib::to_multiset_remove(x, 0);
        vstd::seq_lib::to_multiset_remove(y, 0);
        lemma_order_of_listing_irrelevant(x.drop_first(), y.drop_first());
        assert(x =~= seq![x[0]] + x.drop_first());
        assert(y =~= seq![y[0]] + y.drop_first());
    }
}

} // verus!
