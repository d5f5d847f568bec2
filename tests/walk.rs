use line_counter::report::{DirData, FileData, Metric, Rollup};
use line_counter::metrics::TextMetrics;
use line_counter::walk::{file_data, walk, Entry};

fn file(name: &str, text: &str) -> Entry {
    Entry::File { name: name.to_string(), text: text.to_string() }
}

fn dir(name: &str, entries: Vec<Entry>) -> Entry {
    Entry::Dir { name: name.to_string(), entries }
}

fn file_names(d: &DirData) -> Vec<String> {
    d.file_data.iter().map(|f| f.file_name.clone()).collect()
}

fn dir_names(d: &DirData) -> Vec<String> {
    d.sub_dirs.iter().map(|s| s.dir_name.clone()).collect()
}

fn same(a: &DirData, b: &DirData) -> bool {
    a.dir_name == b.dir_name
        && a.file_data.len() == b.file_data.len()
        && a.file_data.iter().zip(b.file_data.iter()).all(|(x, y)| {
            x.file_name == y.file_name
                && x.metrics.lines == y.metrics.lines
                && x.metrics.characters == y.metrics.characters
                && x.metrics.words == y.metrics.words
        })
        && a.sub_dirs.len() == b.sub_dirs.len()
        && a.sub_dirs.iter().zip(b.sub_dirs.iter()).all(|(x, y)| same(x, y))
}

fn sample_tree() -> Entry {
    dir(
        "root",
        vec![
            file(".lcignore", "skip.txt\n  sub_ignored \n"),
            file("skip.txt", "x\n"),
            file("keep.txt", "one\ntwo\n"),
            dir("sub_ignored", vec![file("a.txt", "a\n")]),
            dir("other", vec![file("skip.txt", "y\n"), file("b.txt", "b\n\n")]),
        ],
    )
}

#[test]
fn ignored_files_and_directories_are_absent() {
    let r = walk(&sample_tree(), &Vec::new(), false, true);
    assert_eq!(r.dir_name, "root");
    assert_eq!(file_names(&r), vec!["keep.txt".to_string()]);
    assert_eq!(dir_names(&r), vec!["other".to_string()]);
}

#[test]
fn ignore_list_is_not_inherited() {
    let r = walk(&sample_tree(), &Vec::new(), false, true);
    let other = &r.sub_dirs[0];
    assert_eq!(file_names(other), vec!["skip.txt".to_string(), "b.txt".to_string()]);
}

#[test]
fn given_names_apply_at_every_level() {
    let extra = vec!["b.txt".to_string()];
    let r = walk(&sample_tree(), &extra, false, true);
    assert_eq!(file_names(&r.sub_dirs[0]), vec!["skip.txt".to_string()]);
}

#[test]
fn non_recursive_walk_leaves_out_directories() {
    let r = walk(&sample_tree(), &Vec::new(), false, false);
    assert!(r.sub_dirs.is_empty());
    assert_eq!(file_names(&r), vec!["keep.txt".to_string()]);
}

#[test]
fn file_metrics_in_the_walk() {
    let r = walk(&sample_tree(), &Vec::new(), true, true);
    let b = &r.sub_dirs[0].file_data[1];
    assert_eq!(b.file_name, "b.txt");
    assert_eq!((b.metrics.lines, b.metrics.characters, b.metrics.words), (1, 3, 1));
}

#[test]
fn deep_and_shallow_totals() {
    let tree = dir(
        "R",
        vec![file("A", "1\n2\n3\n"), dir("S", vec![file("B", "1\n2\n3\n4\n5\n")])],
    );
    let r = walk(&tree, &Vec::new(), false, true);
    assert_eq!(r.checked_total(Metric::Lines, Rollup::Deep), Some(8));
    assert_eq!(r.checked_total(Metric::Lines, Rollup::Shallow), Some(3));
    assert_eq!(r.total_lines(), 3);
    assert_eq!(r.total_characters(), 6);
    assert_eq!(r.total_words(), 3);
    let deep = r.totals(Rollup::Deep).unwrap();
    assert_eq!((deep.lines, deep.characters, deep.words), (8, 16, 8));
    let shallow = r.totals(Rollup::Shallow).unwrap();
    assert_eq!((shallow.lines, shallow.characters, shallow.words), (3, 6, 3));
}

#[test]
fn walking_twice_gives_identical_reports() {
    let tree = sample_tree();
    let a = walk(&tree, &Vec::new(), false, true);
    let b = walk(&tree, &Vec::new(), false, true);
    assert!(same(&a, &b));
}

#[test]
fn totals_that_overflow() {
    let big = |name: &str| FileData {
        file_name: name.to_string(),
        metrics: TextMetrics { lines: usize::MAX, characters: 1, words: 0 },
    };
    let d = DirData {
        dir_name: "d".to_string(),
        file_data: vec![big("x")],
        sub_dirs: vec![DirData {
            dir_name: "s".to_string(),
            file_data: vec![big("y")],
            sub_dirs: Vec::new(),
        }],
    };
    assert_eq!(d.checked_total(Metric::Lines, Rollup::Shallow), Some(usize::MAX));
    assert_eq!(d.checked_total(Metric::Lines, Rollup::Deep), None);
    assert_eq!(d.checked_total(Metric::Characters, Rollup::Deep), Some(2));
    assert!(d.totals(Rollup::Deep).is_none());
    assert!(d.totals(Rollup::Shallow).is_some());
}

#[test]
fn empty_directory() {
    let r = walk(&dir("e", Vec::new()), &Vec::new(), false, true);
    assert!(r.file_data.is_empty() && r.sub_dirs.is_empty());
    assert_eq!(r.totals(Rollup::Deep).map(|t| t.lines), Some(0));
}

#[test]
fn single_file_report() {
    let f = file_data("notes.txt".to_string(), "a b\n\nc\n", true);
    assert_eq!(f.file_name, "notes.txt");
    assert_eq!((f.metrics.lines, f.metrics.characters, f.metrics.words), (2, 7, 3));
}
