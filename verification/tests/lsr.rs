use workbench::lsr::{format_mode, format_output, is_listed, mk_triple, LongEntry, Owner};

#[test]
fn test_format_mode() {
    assert_eq!(format_mode(0o755), "rwxr-xr-x");
    assert_eq!(format_mode(0o421), "r---w---x");
}

fn long_match(
    line: &str,
    expected_name: &str,
    expected_perms: &str,
    expected_size: Option<&str>,
) {
    let parts: Vec<_> = line.split_whitespace().collect();
    assert!(parts.len() > 0 && parts.len() <= 10);

    let perms = parts.get(0).unwrap();
    assert_eq!(perms, &expected_perms);

    if let Some(size) = expected_size {
        let file_size = parts.get(4).unwrap();
        assert_eq!(file_size, &size);
    }

    let display_name = parts.last().unwrap();
    assert_eq!(display_name, &expected_name);
}

#[test]
fn test_format_output_one() {
    let bustle_path = "tests/inputs/bustle.txt";
    let bustle = LongEntry {
        is_dir: false,
        mode: 0o100644,
        nlink: 1,
        user: "kyclark".to_string(),
        group: "staff".to_string(),
        size: 193,
        modified: "Aug 10 21 14:06".to_string(),
        path: bustle_path.to_string(),
    };

    let out = format_output(&vec![bustle]);
    let lines: Vec<&str> = out.split("\n").filter(|s| !s.is_empty()).collect();
    assert_eq!(lines.len(), 1);

    let line1 = lines.first().unwrap();
    long_match(&line1, bustle_path, "-rw-r--r--", Some("193"));
}

#[test]
fn long_output_aligns_columns() {
    let entry = |name: &str, size: u64, dir: bool| LongEntry {
        is_dir: dir,
        mode: if dir { 0o755 } else { 0o644 },
        nlink: 1,
        user: "u".to_string(),
        group: "g".to_string(),
        size,
        modified: "Jan 01 24 00:00".to_string(),
        path: name.to_string(),
    };
    let out = format_output(&vec![entry("a", 5, false), entry("dir", 4096, true)]);
    assert_eq!(
        out,
        "-rw-r--r--  1  u  g     5  Jan 01 24 00:00 a\ndrwxr-xr-x  1  u  g  4096  Jan 01 24 00:00 dir\n"
    );
    assert_eq!(format_output(&vec![]), "");
}

#[test]
fn test_mk_triple() {
    assert_eq!(mk_triple(0o751, Owner::User), "rwx");
    assert_eq!(mk_triple(0o751, Owner::Group), "r-x");
    assert_eq!(mk_triple(0o751, Owner::Other), "--x");
    assert_eq!(mk_triple(0o600, Owner::Other), "---");
}

#[test]
fn hidden_entries() {
    assert!(!is_listed(".hidden", false));
    assert!(is_listed(".hidden", true));
    assert!(is_listed("visible", false));
    assert!(is_listed("", false));
}
