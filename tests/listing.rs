use line_counter::listing::{name_less, sort_by_name};
use line_counter::walk::{walk, Entry};

fn s(x: &str) -> String {
    x.to_string()
}

fn file(name: &str, text: &str) -> Entry {
    Entry::File { name: s(name), text: s(text) }
}

fn names(v: &[Entry]) -> Vec<String> {
    v.iter()
        .map(|e| match e {
            Entry::File { name, .. } => name.clone(),
            Entry::Dir { name, .. } => name.clone(),
        })
        .collect()
}

#[test]
fn order_of_names() {
    assert!(name_less(&s("a"), &s("b")));
    assert!(!name_less(&s("b"), &s("a")));
    assert!(!name_less(&s("a"), &s("a")));
    assert!(name_less(&s("a"), &s("ab")));
    assert!(!name_less(&s("ab"), &s("a")));
    assert!(name_less(&s(""), &s("a")));
    assert!(name_less(&s("Z"), &s("a")));
    assert!(!name_less(&s("é"), &s("z")));
}

#[test]
fn listing_is_put_in_order_of_name() {
    let v = vec![file("c.txt", ""), Entry::Dir { name: s("b"), entries: Vec::new() }, file("a.txt", "")];
    assert_eq!(names(&sort_by_name(v)), vec![s("a.txt"), s("b"), s("c.txt")]);
    assert!(sort_by_name(Vec::new()).is_empty());
}

#[test]
fn report_does_not_depend_on_listing_order() {
    let one = vec![file("b", "1\n2\n"), file("a", "x"), file("c", "\n")];
    let two = vec![file("c", "\n"), file("b", "1\n2\n"), file("a", "x")];
    let r1 = walk(&Entry::Dir { name: s("d"), entries: sort_by_name(one) }, &Vec::new(), false, true);
    let r2 = walk(&Entry::Dir { name: s("d"), entries: sort_by_name(two) }, &Vec::new(), false, true);
    let view = |r: &line_counter::report::DirData| {
        r.file_data
            .iter()
            .map(|f| (f.file_name.clone(), f.metrics.lines, f.metrics.characters, f.metrics.words))
            .collect::<Vec<_>>()
    };
    assert_eq!(view(&r1), view(&r2));
    assert_eq!(view(&r1)[0], (s("a"), 1, 1, 0));
}
