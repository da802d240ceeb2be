use workbench::commr::{check_inputs, compare_texts, config_from_args, Args, Config};

fn config(show: [bool; 3], insensitive: bool) -> Config {
    Config {
        file1: "a".to_string(),
        file2: "b".to_string(),
        show_col1: show[0],
        show_col2: show[1],
        show_col3: show[2],
        insensitive,
        delimiter: "\t".to_string(),
    }
}

#[test]
fn three_columns() {
    let out = compare_texts(&config([true, true, true], false), "a\nb\nc\n", "b\nc\nd\n");
    assert_eq!(out, vec!["a", "\t\tb", "\t\tc", "\td"]);
}

#[test]
fn suppressed_columns() {
    let out = compare_texts(&config([false, true, true], false), "a\nb\n", "b\nc\n");
    assert_eq!(out, vec!["\tb", "c"]);
    let out = compare_texts(&config([true, true, false], false), "a\nb\n", "b\nc\n");
    assert_eq!(out, vec!["a", "\tc"]);
    let out = compare_texts(&config([false, false, true], false), "a\nb\n", "b\nc\n");
    assert_eq!(out, vec!["b"]);
}

#[test]
fn case_insensitive_comparison_shows_lower_case() {
    let out = compare_texts(&config([true, true, true], true), "A\nb\n", "a\nB\n");
    assert_eq!(out, vec!["\t\ta", "\t\tb"]);
    let out = compare_texts(&config([true, true, true], false), "A\nb\n", "a\nB\n");
    assert_eq!(out, vec!["A", "\ta", "\tB", "b"]);
}

#[test]
fn standard_input_twice_is_refused() {
    let mut c = config([true, true, true], false);
    c.file1 = "-".to_string();
    assert!(check_inputs(&c).is_ok());
    c.file2 = "-".to_string();
    assert_eq!(check_inputs(&c), Err("Both input files cannot be STDIN (\"-\")".to_string()));
    let c = config_from_args(Args {
        file1: "x".to_string(),
        file2: "y".to_string(),
        insensitive: true,
        suppress_col1: true,
        suppress_col2: false,
        suppress_col3: false,
        delimiter: ",".to_string(),
    });
    assert!(!c.show_col1 && c.show_col2 && c.show_col3 && c.insensitive);
}
