//! Line, character and word counts of a single text.
use vstd::prelude::*;

verus! {

/// Unicode's White_Space property.
pub open spec fn is_white_space(c: char) -> bool {
    let u = c as u32;
    (9 <= u <= 13) || u == 0x20 || u == 0x85 || u == 0xa0 || u == 0x1680 || (0x2000 <= u
        <= 0x200a) || u == 0x2028 || u == 0x2029 || u == 0x202f || u == 0x205f || u == 0x3000
}

/// Relies on char::is_whitespace: true exactly for the characters that have
/// Unicode's White_Space property.
#[verifier::external_body]
pub(crate) fn char_is_whitespace(c: char) -> (r: bool)
    ensures
        r == is_white_space(c),
{
    c.is_whitespace()
}

/// The pieces of `t` between line feeds, the last one possibly empty.
pub open spec fn pieces(t: Seq<char>) -> Seq<Seq<char>>
    decreases t.len(),
{
    if t.len() == 0 {
        seq![Seq::empty()]
    } else {
        let p = pieces(t.drop_last());
        if t.last() == '\n' {
            p.push(Seq::empty())
        } else {
            p.update(p.len() - 1, p.last().push(t.last()))
        }
    }
}

/// The lines of `t`: its pieces, without the empty piece that follows a final
/// line feed (or that an empty text consists of).
pub open spec fn lines_of(t: Seq<char>) -> Seq<Seq<char>> {
    let p = pieces(t);
    if p.last().len() == 0 {
        p.drop_last()
    } else {
        p
    }
}

/// A line is blank when it is empty once whitespace is trimmed from both ends,
/// that is, when all its characters are whitespace.
pub open spec fn is_blank(l: Seq<char>) -> bool {
    forall|i: int| 0 <= i < l.len() ==> is_white_space(#[trigger] l[i])
}

/// How many of the lines `ls` are blank.
pub open spec fn blank_count(ls: Seq<Seq<char>>) -> nat
    decreases ls.len(),
{
    if ls.len() == 0 {
        0
    } else {
        blank_count(ls.drop_last()) + if is_blank(ls.last()) {
            1nat
        } else {
            0nat
        }
    }
}

/// How many of the lines `ls` are not blank.
pub open spec fn non_blank_count(ls: Seq<Seq<char>>) -> nat
    decreases ls.len(),
{
    if ls.len() == 0 {
        0
    } else {
        non_blank_count(ls.drop_last()) + if is_blank(ls.last()) {
            0nat
        } else {
            1nat
        }
    }
}

/// How many line feeds `t` holds.
pub open spec fn line_feed_count(t: Seq<char>) -> nat
    decreases t.len(),
{
    if t.len() == 0 {
        0
    } else {
        line_feed_count(t.drop_last()) + if t.last() == '\n' {
            1nat
        } else {
            0nat
        }
    }
}

/// How many characters of `t` are whitespace.
pub open spec fn white_space_count(t: Seq<char>) -> nat
    decreases t.len(),
{
    if t.len() == 0 {
        0
    } else {
        white_space_count(t.drop_last()) + if is_white_space(t.last()) {
            1nat
        } else {
            0nat
        }
    }
}

/// How many lines of `t` are blank.
pub open spec fn empty_line_count(t: Seq<char>) -> nat {
    blank_count(lines_of(t))
}

/// The line count of `t`: all its lines, or only those that are not blank.
pub open spec fn line_count(t: Seq<char>, skip_empty_lines: bool) -> int {
    if skip_empty_lines {
        non_blank_count(lines_of(t)) as int
    } else {
        lines_of(t).len() as int
    }
}

/// The word count of `t`: its whitespace characters less its blank lines.
pub open spec fn word_count(t: Seq<char>) -> int {
    white_space_count(t) - empty_line_count(t)
}

/// The counts of one text.
pub struct TextMetrics {
    pub lines: usize,
    pub characters: usize,
    pub words: usize,
}

/// Every line is either blank or not.
proof fn lemma_blank_split(ls: Seq<Seq<char>>)
    ensures
        blank_count(ls) + non_blank_count(ls) == ls.len(),
    decreases ls.len(),
{
    if ls.len() > 0 {
        lemma_blank_split(ls.drop_last());
    }
}

/// A text with the empty line count taken from its line count leaves the count
/// of its non-blank lines.
pub proof fn lemma_skip_empty_lines(t: Seq<char>)
    ensures
        line_count(t, true) == line_count(t, false) - empty_line_count(t),
{
    lemma_blank_split(lines_of(t));
}

proof fn lemma_pieces(t: Seq<char>)
    ensures
        pieces(t).len() == line_feed_count(t) + 1,
        (pieces(t).last().len() == 0) <==> (t.len() == 0 || t.last() == '\n'),
    decreases t.len(),
{
    if t.len() > 0 {
        lemma_pieces(t.drop_last());
    }
}

/// The lines of a text are as many as its line feeds, and one more where the
/// text does not end with a line feed and is not empty.
pub proof fn lemma_line_segments(t: Seq<char>)
    ensures
        line_count(t, false) == line_feed_count(t) + if t.len() > 0 && t.last() != '\n' {
            1int
        } else {
            0int
        },
{
    lemma_pieces(t);
}

proof fn lemma_blank_within_white_space_step(t: Seq<char>)
    ensures
        pieces(t).len() >= 1,
        blank_count(pieces(t).drop_last()) + (if pieces(t).last().len() > 0 && is_blank(
            pieces(t).last(),
        ) {
            1int
        } else {
            0int
        }) <= white_space_count(t),
    decreases t.len(),
{
    if t.len() > 0 {
        let pre = t.drop_last();
        let c = t.last();
        let p = pieces(pre);
        lemma_blank_within_white_space_step(pre);
        if c == '\n' {
            assert(pieces(t).drop_last() =~= p);
        } else {
            let q = p.update(p.len() - 1, p.last().push(c));
            assert(q.drop_last() =~= p.drop_last());
            lemma_blank_push(p.last(), c);
        }
    }
}

/// Each blank line holds a whitespace character of its own (its line feed, or
/// itself when it is the last), so the word count is never negative.
pub proof fn lemma_word_count_nonnegative(t: Seq<char>)
    ensures
        empty_line_count(t) <= white_space_count(t),
        word_count(t) >= 0,
{
    lemma_blank_within_white_space_step(t);
}

proof fn lemma_blank_push(l: Seq<char>, c: char)
    ensures
        is_blank(l.push(c)) == (is_blank(l) && is_white_space(c)),
{
    let m = l.push(c);
    if is_blank(l) && is_white_space(c) {
        assert forall|i: int| 0 <= i < m.len() implies is_white_space(#[trigger] m[i]) by {
            if i < l.len() {
                assert(m[i] == l[i]);
            }
        }
    }
    if is_blank(m) {
        assert(m[l.len() as int] == c);
        assert forall|i: int| 0 <= i < l.len() implies is_white_space(#[trigger] l[i]) by {
            assert(m[i] == l[i]);
        }
    }
}

/// Counts the lines, characters and words of `text`. A line is a run of
/// characters up to a line feed or the end; a final line feed starts no
/// further line. With `skip_empty_lines` blank lines are not counted. Every
/// character counts; the word count is the number of whitespace characters
/// less the number of blank lines, which is never negative.
pub fn count_text(text: &str, skip_empty_lines: bool) -> (r: TextMetrics)
    ensures
        r.lines == line_count(text@, skip_empty_lines),
        r.characters == text@.len(),
        r.words == word_count(text@),
        0 <= word_count(text@),
{
    let characters = text.unicode_len();
    let ghost t = text@;
    let mut done_lines: usize = 0;
    let mut done_blank: usize = 0;
    let mut cur_nonempty: bool = false;
    let mut cur_blank: bool = true;
    let mut white: usize = 0;
    let mut i: usize = 0;
    assert(t.subrange(0, 0) =~= Seq::<char>::empty());
    for c in it: text.chars()
        invariant
            it.seq() == t,
            i == it.index(),
            characters == t.len(),
            t == text@,
            i <= characters,
            pieces(t.subrange(0, i as int)).len() == done_lines + 1,
            done_blank == blank_count(pieces(t.subrange(0, i as int)).drop_last()),
            cur_nonempty == (pieces(t.subrange(0, i as int)).last().len() > 0),
            cur_blank == is_blank(pieces(t.subrange(0, i as int)).last()),
            white == white_space_count(t.subrange(0, i as int)),
            done_lines + (if cur_nonempty {
                1int
            } else {
                0int
            }) <= i,
            done_blank <= done_lines,
            white <= i,
            done_blank + (if cur_nonempty && cur_blank {
                1int
            } else {
                0int
            }) <= white,
    {
        let ghost pre = t.subrange(0, i as int);
        let ghost post = t.subrange(0, i + 1);
        let ghost p = pieces(pre);
        assert(post.drop_last() =~= pre);
        assert(post.last() == c);
        let w = char_is_whitespace(c);
        if w {
            white = white + 1;
        }
        if c == '\n' {
            assert(pieces(post) == p.push(Seq::empty()));
            assert(pieces(post).drop_last() =~= p);
            if cur_blank {
                done_blank = done_blank + 1;
            }
            done_lines = done_lines + 1;
            cur_nonempty = false;
            cur_blank = true;
        } else {
            let ghost q = p.update(p.len() - 1, p.last().push(c));
            assert(pieces(post) == q);
            assert(q.drop_last() =~= p.drop_last());
            proof {
                lemma_blank_push(p.last(), c);
            }
            cur_nonempty = true;
            cur_blank = cur_blank && w;
        }
        i = i + 1;
    }
    assert(t.subrange(0, characters as int) =~= t);
    proof {
        lemma_skip_empty_lines(t);
    }
    let lines = if cur_nonempty {
        done_lines + 1
    } else {
        done_lines
    };
    let blank = if cur_nonempty && cur_blank {
        done_blank + 1
    } else {
        done_blank
    };
    let r = TextMetrics {
        lines: if skip_empty_lines {
            lines - blank
        } else {
            lines
        },
        characters,
        words: white - blank,
    };
    r
}

} // verus!
