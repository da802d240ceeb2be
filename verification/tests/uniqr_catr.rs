use workbench::catr::cat_lines;
use workbench::uniqr::uniq;

#[test]
fn adjacent_equal_lines_collapse() {
    let text = "a\na \nb\na\n";
    assert_eq!(uniq(text, false), "a\nb\na\n");
    assert_eq!(uniq(text, true), "   2 a\n   1 b\n   1 a\n");
    assert_eq!(uniq("", true), "");
    assert_eq!(uniq("x\nx", true), "   2 x\n");
}

#[test]
fn cat_numbering() {
    let text = "one\n\ntwo\n";
    assert_eq!(cat_lines(text, false, false), vec!["one", "", "two"]);
    assert_eq!(cat_lines(text, true, false), vec!["     1\tone", "     2\t", "     3\ttwo"]);
    assert_eq!(cat_lines(text, false, true), vec!["     1\tone", "", "     2\ttwo"]);
}
