use workbench::paths::{compare_components, components, file_name_of};
use workbench::text::Precedence;

#[test]
fn components_as_the_standard_library_reads_them() {
    let parts = |p: &str| components(p);
    assert_eq!(parts("a//b/./c/"), vec!["\u{4}a", "\u{4}b", "\u{4}c"]);
    assert_eq!(parts("/x/../y"), vec!["\u{1}", "\u{4}x", "\u{3}", "\u{4}y"]);
    assert_eq!(parts("./a"), vec!["\u{2}", "\u{4}a"]);
    assert_eq!(parts("a/."), vec!["\u{4}a"]);
    assert_eq!(parts(""), Vec::<String>::new());
    for p in ["a//b/./c/", "/x/../y", "./a", "a/.", "", "/", ".", "..", "a.b/c.dat"] {
        let std_count = std::path::Path::new(p).components().count();
        assert_eq!(parts(p).len(), std_count, "{}", p);
    }
}

#[test]
fn paths_sort_component_by_component() {
    let cmp = |a: &str, b: &str| compare_components(&components(a), &components(b));
    assert_eq!(cmp("a/z", "a.b/y"), Precedence::Before);
    assert_eq!(cmp("a/./z", "a/z"), Precedence::Same);
    assert_eq!(cmp("/q", "./q"), Precedence::Before);
    assert_eq!(cmp("../q", "./q"), Precedence::After);
    assert_eq!(cmp("a", "a/b"), Precedence::Before);
    for (a, b) in [("a/z", "a.b/y"), ("/q", "./q"), ("../q", "./q"), ("a", "a/b"), ("b", "a/c")] {
        let by_std = std::path::Path::new(a).cmp(std::path::Path::new(b));
        let expected = match by_std {
            std::cmp::Ordering::Less => Precedence::Before,
            std::cmp::Ordering::Equal => Precedence::Same,
            std::cmp::Ordering::Greater => Precedence::After,
        };
        assert_eq!(cmp(a, b), expected, "{} {}", a, b);
    }
}

#[test]
fn file_names_of_paths() {
    assert_eq!(file_name_of("dir/jokes"), Some("jokes".to_string()));
    assert_eq!(file_name_of("dir/jokes/"), Some("jokes".to_string()));
    assert_eq!(file_name_of("/"), None);
    assert_eq!(file_name_of("a/.."), None);
    assert_eq!(file_name_of("."), None);
}
