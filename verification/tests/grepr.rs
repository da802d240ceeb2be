use workbench::grepr::{files_to_search, path_step, PathStep};
use workbench::paths::WalkEntry;
use workbench::grepr::{config_from_args, find_lines, format_matches, Args};
use workbench::pattern::Pattern;

#[test]
fn test_find_lines() {
    let text = "Lorem\nIpsum\r\nDOLOR";

    let re1 = Pattern::new("or", false).unwrap();
    let matches = find_lines(text, &re1, false);
    assert_eq!(matches.len(), 1);

    let matches = find_lines(text, &re1, true);
    assert_eq!(matches.len(), 2);

    let re2 = Pattern::new("or", true).unwrap();

    let matches = find_lines(text, &re2, false);
    assert_eq!(matches.len(), 2);

    let matches = find_lines(text, &re2, true);
    assert_eq!(matches.len(), 1);
}

#[test]
fn found_lines_keep_newlines_and_partition() {
    let text = "Lorem\nIpsum\r\nDOLOR";
    let re = Pattern::new("or", true).unwrap();
    let found = find_lines(text, &re, false);
    assert_eq!(found, vec!["Lorem\n".to_string(), "DOLOR".to_string()]);
    let other = find_lines(text, &re, true);
    assert_eq!(other, vec!["Ipsum\r\n".to_string()]);
    assert_eq!(found.len() + other.len(), 3);
}

#[test]
fn match_output() {
    let lines = vec!["a\n".to_string(), "b\n".to_string()];
    assert_eq!(format_matches(&lines, 1, false, "f"), "a\nb\n");
    assert_eq!(format_matches(&lines, 2, false, "f"), "f:a\nf:b\n");
    assert_eq!(format_matches(&lines, 2, true, "f"), "f:2\n");
    assert_eq!(format_matches(&lines, 1, true, "f"), "2\n");
    assert_eq!(format_matches(&vec![], 2, false, "f"), "");
}

#[test]
fn bad_pattern_is_reported() {
    let args = Args {
        pattern: "*".to_string(),
        files: vec![],
        count: false,
        insensitive: false,
        invert_match: false,
        recursive: false,
    };
    assert_eq!(config_from_args(args).err(), Some("Invalid pattern: \"*\"".to_string()));
}

#[test]
fn files_to_search_follows_each_path() {
    let paths = vec!["-".to_string(), "dir".to_string(), "tree".to_string(), "missing".to_string()];
    let is_dir = vec![false, true, true, false];
    let walks = vec![
        vec![],
        vec![],
        vec![
            WalkEntry::Entry { path: "tree".to_string(), is_file: false },
            WalkEntry::Entry { path: "tree/a.txt".to_string(), is_file: true },
            WalkEntry::Error("tree/locked: Permission denied".to_string()),
            WalkEntry::Entry { path: "tree/b.txt".to_string(), is_file: true },
        ],
        vec![WalkEntry::Error("missing: No such file".to_string())],
    ];
    let found = files_to_search(&paths, &is_dir, &walks, false);
    assert_eq!(
        found,
        vec![
            Ok("-".to_string()),
            Err("dir is a directory".to_string()),
            Err("tree is a directory".to_string()),
            Err("missing: No such file".to_string()),
        ]
    );
    let found = files_to_search(&paths, &is_dir, &walks, true);
    assert_eq!(
        found,
        vec![
            Ok("-".to_string()),
            Ok("tree/a.txt".to_string()),
            Err("tree/locked: Permission denied".to_string()),
            Ok("tree/b.txt".to_string()),
            Err("missing: No such file".to_string()),
        ]
    );
    assert_eq!(path_step("-", false, true), PathStep::Use("-".to_string()));
    assert_eq!(path_step("d", true, true), PathStep::Walk);
}

#[test]
fn test_find_files() {
    // The walks that the sample directory gives.
    let file = |p: &str| WalkEntry::Entry { path: p.to_string(), is_file: true };
    let dir = |p: &str| WalkEntry::Entry { path: p.to_string(), is_file: false };
    let inputs = vec![
        dir("./tests/inputs"),
        file("./tests/inputs/nobody.txt"),
        file("./tests/inputs/fox.txt"),
        file("./tests/inputs/empty.txt"),
        file("./tests/inputs/bustle.txt"),
    ];

    let files = files_to_search(
        &vec!["./tests/inputs/fox.txt".to_string()],
        &vec![false],
        &vec![vec![file("./tests/inputs/fox.txt")]],
        false,
    );
    assert_eq!(files.len(), 1);
    assert_eq!(files[0].as_ref().unwrap(), "./tests/inputs/fox.txt");

    let files = files_to_search(&vec!["./tests/inputs".to_string()], &vec![true], &vec![vec![]], false);
    assert_eq!(files.len(), 1);
    if let Err(e) = &files[0] {
        assert_eq!(e.to_string(), "./tests/inputs is a directory");
    }

    let res = files_to_search(&vec!["./tests/inputs".to_string()], &vec![true], &vec![inputs], true);
    let mut files: Vec<String> = res.iter().map(|r| r.as_ref().unwrap().replace("\\", "/")).collect();
    files.sort();
    assert_eq!(files.len(), 4);
    assert_eq!(
        files,
        vec![
            "./tests/inputs/bustle.txt",
            "./tests/inputs/empty.txt",
            "./tests/inputs/fox.txt",
            "./tests/inputs/nobody.txt",
        ]
    );

    let bad = "q7XzT2p".to_string();
    let err = WalkEntry::Error(format!("IO error for operation on {}: No such file or directory (os error 2)", bad));
    let files = files_to_search(&vec![bad], &vec![false], &vec![vec![err]], false);
    assert_eq!(files.len(), 1);
    assert!(files[0].is_err());
}
