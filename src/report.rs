//! Reports on files and directory trees, and their totals.
use vstd::prelude::*;
use crate::metrics::TextMetrics;

verus! {

/// The report on one file.
pub struct FileData {
    pub file_name: String,
    pub metrics: TextMetrics,
}

/// The report on a directory: its files and the reports on its subdirectories.
pub struct DirData {
    pub dir_name: String,
    pub file_data: Vec<FileData>,
    pub sub_dirs: Vec<DirData>,
}

/// What a file report states.
pub struct FileView {
    pub name: Seq<char>,
    pub lines: nat,
    pub characters: nat,
    pub words: nat,
}

/// What a directory report states.
pub struct DirView {
    pub name: Seq<char>,
    pub files: Seq<FileView>,
    pub subs: Seq<DirView>,
}

/// What the file report `f` states.
pub open spec fn file_view(f: FileData) -> FileView {
    FileView {
        name: f.file_name@,
        lines: f.metrics.lines as nat,
        characters: f.metrics.characters as nat,
        words: f.metrics.words as nat,
    }
}

/// What each of the file reports `s` states.
pub open spec fn file_views(s: Seq<FileData>) -> Seq<FileView> {
    s.map_values(|f: FileData| file_view(f))
}

/// What the directory report `d` states, down the whole tree.
pub open spec fn dir_view(d: DirData) -> DirView
    decreases d,
{
    DirView { name: d.dir_name@, files: file_views(d.file_data@), subs: dir_views(d.sub_dirs@) }
}

/// What each of the directory reports `s` states.
pub open spec fn dir_views(s: Seq<DirData>) -> Seq<DirView>
    decreases s,
{
    if s.len() == 0 {
        Seq::empty()
    } else {
        dir_views(s.drop_last()).push(dir_view(s.last()))
    }
}

proof fn lemma_dir_views(s: Seq<DirData>)
    ensures
        dir_views(s).len() == s.len(),
        forall|i: int| 0 <= i < s.len() ==> #[trigger] dir_views(s)[i] == dir_view(s[i]),
    decreases s.len(),
{
    if s.len() > 0 {
        lemma_dir_views(s.drop_last());
        assert forall|i: int| 0 <= i < s.len() implies #[trigger] dir_views(s)[i] == dir_view(
            s[i],
        ) by {
            if i < s.len() - 1 {
                assert(s.drop_last()[i] == s[i]);
            }
        }
    }
}

impl DirData {
    /// What the report states.
    pub open spec fn view(self) -> DirView {
        dir_view(self)
    }
}

/// One of the three counts.
#[derive(Clone, Copy, PartialEq, Eq, Structural)]
pub enum Metric {
    Lines,
    Characters,
    Words,
}

/// How a directory's totals take in its subdirectories.
#[derive(Clone, Copy, PartialEq, Eq, Structural)]
pub enum Rollup {
    /// Only the directory's own files count.
    Shallow,
    /// The files of the whole tree count.
    Deep,
}

/// The totals of the three counts.
pub struct Totals {
    pub lines: usize,
    pub characters: usize,
    pub words: usize,
}

/// The count `m` of the file `f`.
pub open spec fn metric_of(f: FileView, m: Metric) -> nat {
    match m {
        Metric::Lines => f.lines,
        Metric::Characters => f.characters,
        Metric::Words => f.words,
    }
}

/// The sum of the count `m` over the files `fs`.
pub open spec fn files_total(fs: Seq<FileView>, m: Metric) -> nat
    decreases fs.len(),
{
    if fs.len() == 0 {
        0
    } else {
        files_total(fs.drop_last(), m) + metric_of(fs.last(), m)
    }
}

/// The sum of the count `m` over the files of the whole tree `d`.
pub open spec fn deep_total(d: DirView, m: Metric) -> nat
    decreases d,
{
    files_total(d.files, m) + subs_total(d.subs, m)
}

/// The sum of the count `m` over the files of the trees `s`.
pub open spec fn subs_total(s: Seq<DirView>, m: Metric) -> nat
    decreases s,
{
    if s.len() == 0 {
        0
    } else {
        subs_total(s.drop_last(), m) + deep_total(s.last(), m)
    }
}

/// The total of the count `m` of the directory `d` under `rollup`.
pub open spec fn total(d: DirView, m: Metric, rollup: Rollup) -> nat {
    match rollup {
        Rollup::Shallow => files_total(d.files, m),
        Rollup::Deep => deep_total(d, m),
    }
}

/// `Some(n)` where `n` fits in a `usize`, else `None`.
pub open spec fn fitting(n: nat) -> Option<usize> {
    if n <= usize::MAX {
        Some(n as usize)
    } else {
        None
    }
}

proof fn lemma_files_total_prefix(fs: Seq<FileView>, m: Metric, i: int)
    requires
        0 <= i <= fs.len(),
    ensures
        files_total(fs.subrange(0, i), m) <= files_total(fs, m),
    decreases fs.len() - i,
{
    if i < fs.len() {
        lemma_files_total_prefix(fs, m, i + 1);
        assert(fs.subrange(0, i + 1).drop_last() =~= fs.subrange(0, i));
    } else {
        assert(fs.subrange(0, i) =~= fs);
    }
}

proof fn lemma_subs_total_prefix(s: Seq<DirView>, m: Metric, i: int)
    requires
        0 <= i <= s.len(),
    ensures
        subs_total(s.subrange(0, i), m) <= subs_total(s, m),
    decreases s.len() - i,
{
    if i < s.len() {
        lemma_subs_total_prefix(s, m, i + 1);
        assert(s.subrange(0, i + 1).drop_last() =~= s.subrange(0, i));
    } else {
        assert(s.subrange(0, i) =~= s);
    }
}

fn file_metric(f: &FileData, m: Metric) -> (r: usize)
    ensures
        r == metric_of(file_view(*f), m),
{
    match m {
        Metric::Lines => f.metrics.lines,
        Metric::Characters => f.metrics.characters,
        Metric::Words => f.metrics.words,
    }
}

/// The sum of the count `m` over `files`, where it fits in a `usize`.
fn checked_files_total(files: &Vec<FileData>, m: Metric) -> (r: Option<usize>)
    ensures
        r == fitting(files_total(file_views(files@), m)),
{
    let ghost fs = file_views(files@);
    let mut acc: usize = 0;
    let n = files.len();
    for i in 0..n
        invariant
            n == files@.len(),
            fs == file_views(files@),
            acc == files_total(fs.subrange(0, i as int), m),
    {
        let x = file_metric(&files[i], m);
        assert(fs.subrange(0, i + 1).drop_last() =~= fs.subrange(0, i as int));
        proof {
            lemma_files_total_prefix(fs, m, i + 1);
        }
        match acc.checked_add(x) {
            Some(v) => {
                acc = v;
            },
            None => {
                return None;
            },
        }
    }
    assert(fs.subrange(0, n as int) =~= fs);
    Some(acc)
}

impl DirData {
    /// The total of the count `m` over the files of the whole tree, where it
    /// fits in a `usize`.
    fn checked_deep_total(&self, m: Metric) -> (r: Option<usize>)
        ensures
            r == fitting(deep_total(self@, m)),
        decreases self,
    {
        let own = match checked_files_total(&self.file_data, m) {
            Some(v) => v,
            None => {
                return None;
            },
        };
        let ghost s = dir_views(self.sub_dirs@);
        proof {
            lemma_dir_views(self.sub_dirs@);
        }
        let mut acc: usize = own;
        let n = self.sub_dirs.len();
        for i in 0..n
            invariant
                n == self.sub_dirs@.len(),
                s == dir_views(self.sub_dirs@),
                s.len() == n,
                forall|j: int| 0 <= j < n ==> #[trigger] s[j] == dir_view(self.sub_dirs@[j]),
                acc == files_total(file_views(self.file_data@), m) + subs_total(
                    s.subrange(0, i as int),
                    m,
                ),
        {
            assert(s.subrange(0, i + 1).drop_last() =~= s.subrange(0, i as int));
            proof {
                lemma_subs_total_prefix(s, m, i + 1);
            }
            assert(s[i as int] == dir_view(self.sub_dirs@[i as int]));
            match self.sub_dirs[i].checked_deep_total(m) {
                Some(x) => match acc.checked_add(x) {
                    Some(v) => {
                        acc = v;
                    },
                    None => {
                        return None;
                    },
                },
                None => {
                    return None;
                },
            }
        }
        assert(s.subrange(0, n as int) =~= s);
        Some(acc)
    }

    /// The total of the count `m` under `rollup`, where it fits in a `usize`.
    pub fn checked_total(&self, m: Metric, rollup: Rollup) -> (r: Option<usize>)
        ensures
            r == fitting(total(self@, m, rollup)),
    {
        match rollup {
            Rollup::Shallow => checked_files_total(&self.file_data, m),
            Rollup::Deep => self.checked_deep_total(m),
        }
    }

    /// The totals of the three counts under `rollup`; `None` where one of them
    /// does not fit in a `usize`.
    pub fn totals(&self, rollup: Rollup) -> (r: Option<Totals>)
        ensures
            r is Some <==> (total(self@, Metric::Lines, rollup) <= usize::MAX && total(
                self@,
                Metric::Characters,
                rollup,
            ) <= usize::MAX && total(self@, Metric::Words, rollup) <= usize::MAX),
            r matches Some(t) ==> t.lines == total(self@, Metric::Lines, rollup) && t.characters
                == total(self@, Metric::Characters, rollup) && t.words == total(
                self@,
                Metric::Words,
                rollup,
            ),
    {
        let lines = match self.checked_total(Metric::Lines, rollup) {
            Some(v) => v,
            None => {
                return None;
            },
        };
        let characters = match self.checked_total(Metric::Characters, rollup) {
            Some(v) => v,
            None => {
                return None;
            },
        };
        let words = match self.checked_total(Metric::Words, rollup) {
            Some(v) => v,
            None => {
                return None;
            },
        };
        Some(Totals { lines, characters, words })
    }

    /// The sum of the line counts of the directory's own files.
    pub fn total_lines(&self) -> (r: usize)
        requires
            files_total(self@.files, Metric::Lines) <= usize::MAX,
        ensures
            r == files_total(self@.files, Metric::Lines),
    {
        self.own_total(Metric::Lines)
    }

    /// The sum of the character counts of the directory's own files.
    pub fn total_characters(&self) -> (r: usize)
        requires
            files_total(self@.files, Metric::Characters) <= usize::MAX,
        ensures
            r == files_total(self@.files, Metric::Characters),
    {
        self.own_total(Metric::Characters)
    }

    /// The sum of the word counts of the directory's own files.
    pub fn total_words(&self) -> (r: usize)
        requires
            files_total(self@.files, Metric::Words) <= usize::MAX,
        ensures
            r == files_total(self@.files, Metric::Words),
    {
        self.own_total(Metric::Words)
    }

    fn own_total(&self, m: Metric) -> (r: usize)
        requires
            files_total(self@.files, m) <= usize::MAX,
        ensures
            r == files_total(self@.files, m),
    {
        match checked_files_total(&self.file_data, m) {
            Some(v) => v,
            None => 0,
        }
    }
}

} // verus!
