//! Walking a directory tree into a report.
use vstd::prelude::*;
use crate::ignore::{effective_ignore_set, ignore_file_name_spec, ignore_set, is_ignored, names_of};
use crate::metrics::{count_text, line_count, word_count};
use crate::listing::{distinct_names, lemma_order_of_listing_irrelevant, sorted_by_name};
use crate::report::{DirData, DirView, FileData, FileView, file_view};

verus! {

/// A directory tree as it was read: each file with its text, each directory
/// with its entries.
pub enum Entry {
    File { name: String, text: String },
    Dir { name: String, entries: Vec<Entry> },
}

/// What the report on a file named `name` with text `text` states.
pub open spec fn file_report(name: Seq<char>, text: Seq<char>, skip_empty_lines: bool) -> FileView {
    FileView {
        name,
        lines: line_count(text, skip_empty_lines) as nat,
        characters: text.len(),
        words: word_count(text) as nat,
    }
}

/// The text of the ignore-list file among the entries `cs`, if there is one
/// (the last, should the name occur twice).
pub open spec fn list_text(cs: Seq<Entry>) -> Option<Seq<char>>
    decreases cs.len(),
{
    if cs.len() == 0 {
        None
    } else {
        match cs.last() {
            Entry::File { name, text } if name@ == ignore_file_name_spec() => Some(text@),
            _ => list_text(cs.drop_last()),
        }
    }
}

/// The reports on the files among `cs` whose names `ig` does not hold, in order.
pub open spec fn kept_files(cs: Seq<Entry>, ig: Seq<Seq<char>>, skip_empty_lines: bool) -> Seq<
    FileView,
>
    decreases cs.len(),
{
    if cs.len() == 0 {
        Seq::empty()
    } else {
        let prev = kept_files(cs.drop_last(), ig, skip_empty_lines);
        match cs.last() {
            Entry::File { name, text } => if ig.contains(name@) {
                prev
            } else {
                prev.push(file_report(name@, text@, skip_empty_lines))
            },
            Entry::Dir { .. } => prev,
        }
    }
}

/// The reports on the subdirectories among `cs` whose names `ig` does not hold,
/// in order.
pub open spec fn kept_dirs(
    cs: Seq<Entry>,
    ig: Seq<Seq<char>>,
    extra: Seq<Seq<char>>,
    skip_empty_lines: bool,
) -> Seq<DirView>
    decreases cs,
{
    if cs.len() == 0 {
        Seq::empty()
    } else {
        let prev = kept_dirs(cs.drop_last(), ig, extra, skip_empty_lines);
        match cs.last() {
            Entry::File { .. } => prev,
            Entry::Dir { name, .. } => if ig.contains(name@) {
                prev
            } else {
                prev.push(walk_spec(cs.last(), extra, skip_empty_lines, true))
            },
        }
    }
}

/// The report on the directory `e`. Its ignore set holds the names `extra`,
/// the entries of its own ignore list and that list's name; it leaves out the
/// entries so named. Its files are reported on; its subdirectories are walked
/// in turn when `recursive`, and contribute nothing otherwise.
pub open spec fn walk_spec(e: Entry, extra: Seq<Seq<char>>, skip_empty_lines: bool, recursive: bool) -> DirView
    decreases e,
{
    match e {
        Entry::Dir { name, entries } => {
            let ig = ignore_set(extra, list_text(entries@));
            DirView {
                name: name@,
                files: kept_files(entries@, ig, skip_empty_lines),
                subs: if recursive {
                    kept_dirs(entries@, ig, extra, skip_empty_lines)
                } else {
                    Seq::empty()
                },
            }
        },
        Entry::File { name, .. } => DirView { name: name@, files: Seq::empty(), subs: Seq::empty() },
    }
}

/// The report on the file `file_name` with text `text`.
pub fn file_data(file_name: String, text: &str, skip_empty_lines: bool) -> (r: FileData)
    ensures
        file_view(r) == file_report(file_name@, text@, skip_empty_lines),
{
    let metrics = count_text(text, skip_empty_lines);
    FileData { file_name, metrics }
}

/// The text of the ignore-list file among `entries`, if there is one.
fn find_ignore_list(entries: &Vec<Entry>) -> (r: Option<&String>)
    ensures
        list_text(entries@) == match r {
            Some(t) => Some(t@),
            None => None::<Seq<char>>,
        },
{
    let list_name = crate::ignore::ignore_file_name();
    let mut i: usize = entries.len();
    assert(entries@.subrange(0, i as int) =~= entries@);
    while i > 0
        invariant
            i <= entries@.len(),
            list_name@ == ignore_file_name_spec(),
            list_text(entries@) == list_text(entries@.subrange(0, i as int)),
        decreases i,
    {
        let ghost pre = entries@.subrange(0, i as int);
        assert(pre.drop_last() =~= entries@.subrange(0, i - 1));
        assert(pre.last() == entries@[i - 1]);
        match &entries[i - 1] {
            Entry::File { name, text } => {
                if *name == list_name {
                    return Some(text);
                }
            },
            Entry::Dir { .. } => {},
        }
        i = i - 1;
    }
    None
}

/// Walks the directory `e` into its report: see `walk_spec`.
pub fn walk(e: &Entry, extra: &Vec<String>, skip_empty_lines: bool, recursive: bool) -> (r: DirData)
    requires
        e is Dir,
    ensures
        r@ == walk_spec(*e, names_of(extra@), skip_empty_lines, recursive),
    decreases e,
{
    match e {
        Entry::Dir { name, entries } => {
            let list = find_ignore_list(entries);
            let ig = effective_ignore_set(extra, list);
            let ghost igs = names_of(ig@);
            let ghost ex = names_of(extra@);
            let mut file_data_v: Vec<FileData> = Vec::new();
            let mut sub_dirs: Vec<DirData> = Vec::new();
            let n = entries.len();
            for i in 0..n
                invariant
                    n == entries@.len(),
                    igs == names_of(ig@),
                    igs == ignore_set(ex, list_text(entries@)),
                    ex == names_of(extra@),
                    *e == (Entry::Dir { name: *name, entries: *entries }),
                    crate::report::file_views(file_data_v@) == kept_files(
                        entries@.subrange(0, i as int),
                        igs,
                        skip_empty_lines,
                    ),
                    crate::report::dir_views(sub_dirs@) == if recursive {
                        kept_dirs(entries@.subrange(0, i as int), igs, ex, skip_empty_lines)
                    } else {
                        Seq::empty()
                    },
            {
                let ghost pre = entries@.subrange(0, i + 1);
                assert(pre.drop_last() =~= entries@.subrange(0, i as int));
                assert(pre.last() == entries@[i as int]);
                match &entries[i] {
                    Entry::File { name: fname, text } => {
                        if !is_ignored(fname, &ig) {
                            let f = file_data(fname.clone(), text.as_str(), skip_empty_lines);
                            file_data_v.push(f);
                            assert(crate::report::file_views(file_data_v@) =~= crate::report::file_views(
                                file_data_v@.drop_last(),
                            ).push(file_view(f)));
                        }
                    },
                    Entry::Dir { name: dname, .. } => {
                        if recursive && !is_ignored(dname, &ig) {
                            proof {
                                assert(decreases_to!(*entries => entries@));
                                assert(decreases_to!(entries@ => entries@[i as int]));
                                assert(decreases_to!(*e => e->entries));
                            }
                            let ghost before = sub_dirs@;
                            let d = walk(&entries[i], extra, skip_empty_lines, recursive);
                            sub_dirs.push(d);
                            assert(sub_dirs@.drop_last() =~= before);
                        }
                    },
                }
            }
            assert(entries@.subrange(0, n as int) =~= entries@);
            DirData { dir_name: name.clone(), file_data: file_data_v, sub_dirs }
        },
        Entry::File { .. } => {
            DirData { dir_name: String::new(), file_data: Vec::new(), sub_dirs: Vec::new() }
        },
    }
}

proof fn lemma_kept_files_names(cs: Seq<Entry>, ig: Seq<Seq<char>>, skip_empty_lines: bool)
    ensures
        forall|i: int|
            0 <= i < kept_files(cs, ig, skip_empty_lines).len() ==> !ig.contains(
                #[trigger] kept_files(cs, ig, skip_empty_lines)[i].name,
            ),
    decreases cs.len(),
{
    if cs.len() > 0 {
        lemma_kept_files_names(cs.drop_last(), ig, skip_empty_lines);
        let prev = kept_files(cs.drop_last(), ig, skip_empty_lines);
        let k = kept_files(cs, ig, skip_empty_lines);
        assert forall|i: int| 0 <= i < k.len() implies !ig.contains(#[trigger] k[i].name) by {
            if i < prev.len() {
                assert(k[i] == prev[i]);
            }
        }
    }
}

proof fn lemma_kept_dirs_names(
    cs: Seq<Entry>,
    ig: Seq<Seq<char>>,
    extra: Seq<Seq<char>>,
    skip_empty_lines: bool,
)
    ensures
        forall|i: int|
            0 <= i < kept_dirs(cs, ig, extra, skip_empty_lines).len() ==> !ig.contains(
                #[trigger] kept_dirs(cs, ig, extra, skip_empty_lines)[i].name,
            ),
    decreases cs.len(),
{
    if cs.len() > 0 {
        lemma_kept_dirs_names(cs.drop_last(), ig, extra, skip_empty_lines);
        let c = cs.last();
        let prev = kept_dirs(cs.drop_last(), ig, extra, skip_empty_lines);
        let k = kept_dirs(cs, ig, extra, skip_empty_lines);
        if let Entry::Dir { name, .. } = c {
            assert(walk_spec(c, extra, skip_empty_lines, true).name == name@);
        }
        assert forall|i: int| 0 <= i < k.len() implies !ig.contains(#[trigger] k[i].name) by {
            if i < prev.len() {
                assert(k[i] == prev[i]);
            }
        }
    }
}

/// No file and no subdirectory of a directory's report bears a name that the
/// directory's ignore set holds.
pub proof fn lemma_ignore_set_respected(
    e: Entry,
    extra: Seq<Seq<char>>,
    skip_empty_lines: bool,
    recursive: bool,
    x: Seq<char>,
)
    requires
        e is Dir,
        ignore_set(extra, list_text(e->entries@)).contains(x),
    ensures
        forall|i: int|
            0 <= i < walk_spec(e, extra, skip_empty_lines, recursive).files.len()
                ==> #[trigger] walk_spec(e, extra, skip_empty_lines, recursive).files[i].name != x,
        forall|i: int|
            0 <= i < walk_spec(e, extra, skip_empty_lines, recursive).subs.len()
                ==> #[trigger] walk_spec(e, extra, skip_empty_lines, recursive).subs[i].name != x,
{
    let cs = e->entries@;
    let ig = ignore_set(extra, list_text(cs));
    lemma_kept_files_names(cs, ig, skip_empty_lines);
    lemma_kept_dirs_names(cs, ig, extra, skip_empty_lines);
    let w = walk_spec(e, extra, skip_empty_lines, recursive);
    assert(w.files == kept_files(cs, ig, skip_empty_lines));
    if recursive {
        assert(w.subs == kept_dirs(cs, ig, extra, skip_empty_lines));
    }
    assert forall|i: int| 0 <= i < w.subs.len() implies #[trigger] w.subs[i].name != x by {
        if recursive {
            assert(!ig.contains(kept_dirs(cs, ig, extra, skip_empty_lines)[i].name));
        }
    }
    assert forall|i: int| 0 <= i < w.files.len() implies #[trigger] w.files[i].name != x by {
        assert(!ig.contains(kept_files(cs, ig, skip_empty_lines)[i].name));
    }
}

/// A name listed in a directory's ignore-list file names neither a file nor
/// a subdirectory of the directory's report, whether the walk is recursive or
/// not; nor does the ignore-list file itself appear.
pub proof fn lemma_listed_names_absent(
    e: Entry,
    extra: Seq<Seq<char>>,
    skip_empty_lines: bool,
    recursive: bool,
    x: Seq<char>,
)
    requires
        e is Dir,
        (list_text(e->entries@) matches Some(t) && crate::ignore::ignore_entries(t).contains(x))
            || x == ignore_file_name_spec(),
    ensures
        forall|i: int|
            0 <= i < walk_spec(e, extra, skip_empty_lines, recursive).files.len()
                ==> #[trigger] walk_spec(e, extra, skip_empty_lines, recursive).files[i].name != x,
        forall|i: int|
            0 <= i < walk_spec(e, extra, skip_empty_lines, recursive).subs.len()
                ==> #[trigger] walk_spec(e, extra, skip_empty_lines, recursive).subs[i].name != x,
{
    let l = list_text(e->entries@);
    let own = match l {
        Some(t) => crate::ignore::ignore_entries(t),
        None => Seq::empty(),
    };
    let all = ignore_set(extra, l);
    assert(all == extra + own + seq![ignore_file_name_spec()]);
    if x == ignore_file_name_spec() {
        assert(all[all.len() - 1] == x);
    } else {
        let j = choose|j: int| 0 <= j < own.len() && own[j] == x;
        assert(all[extra.len() + j] == x);
    }
    lemma_ignore_set_respected(e, extra, skip_empty_lines, recursive, x);
}

/// Without recursion a directory's subdirectories contribute nothing: the
/// report has no subdirectories, and its files are those of a recursive walk.
pub proof fn lemma_non_recursive_walk(e: Entry, extra: Seq<Seq<char>>, skip_empty_lines: bool)
    requires
        e is Dir,
    ensures
        walk_spec(e, extra, skip_empty_lines, false).subs.len() == 0,
        walk_spec(e, extra, skip_empty_lines, false).files == walk_spec(
            e,
            extra,
            skip_empty_lines,
            true,
        ).files,
        walk_spec(e, extra, skip_empty_lines, false).name == walk_spec(
            e,
            extra,
            skip_empty_lines,
            true,
        ).name,
{
}

/// A directory's report does not depend on the order in which its entries
/// were listed: two listings of the same entries, no two sharing a name, each
/// put in order of name, give identical reports.
pub proof fn lemma_report_independent_of_listing_order(
    name: String,
    first: Vec<Entry>,
    second: Vec<Entry>,
    extra: Seq<Seq<char>>,
    skip_empty_lines: bool,
    recursive: bool,
)
    requires
        first@.to_multiset() == second@.to_multiset(),
        distinct_names(first@),
        sorted_by_name(first@),
        sorted_by_name(second@),
    ensures
        walk_spec(Entry::Dir { name, entries: first }, extra, skip_empty_lines, recursive)
            == walk_spec(Entry::Dir { name, entries: second }, extra, skip_empty_lines, recursive),
{
    lemma_order_of_listing_irrelevant(first@, second@);
}

} // verus!
