use workbench::fortuner::{
    find_fortune_files, fortune_files, my_find_fortune_files, SourceWalk,
};
use workbench::paths::{file_name_of, WalkEntry};
use workbench::fortuner::{
    config_from_args, my_run_output, parse_fortunes, pick_fortune, run_output, Args, Fortune,
    Printed,
};
use workbench::pattern::Pattern;

#[test]
fn test_pick_fortune() {
    let fortunes = &[
        Fortune {
            source: "fortunes".to_string(),
            text: "You cannot achieve the impossible without \
                  attempting the absurd."
                .to_string(),
        },
        Fortune {
            source: "fortunes".to_string(),
            text: "Assumption is the mother of all screw-ups.".to_string(),
        },
        Fortune {
            source: "fortunes".to_string(),
            text: "Neckties strangle clear thinking.".to_string(),
        },
    ];

    assert_eq!(
        pick_fortune(fortunes, Some(1)).unwrap(),
        "Neckties strangle clear thinking.".to_string()
    );
}

#[test]
fn pick_from_nothing() {
    assert_eq!(pick_fortune(&[], Some(1)), None);
    assert_eq!(pick_fortune(&[], None), None);
}

#[test]
fn fortune_files_are_split_on_percent_lines() {
    let text = "%\nQ. One?\nA. Two.\n%\nSecond\r\n%\nleft over\n";
    let fs = parse_fortunes("jokes", text);
    assert_eq!(fs.len(), 2);
    assert_eq!(fs[0].text, "Q. One?\nA. Two.");
    assert_eq!(fs[1].text, "Second");
    assert_eq!(fs[1].source, "jokes");
    assert_eq!(parse_fortunes("x", "").len(), 0);
}

#[test]
fn percent_lines_never_join_a_quotation() {
    let fs = parse_fortunes("p", "%\na\n%\n");
    assert_eq!(fs.len(), 1);
    assert_eq!(fs[0].source, "p");
    assert_eq!(fs[0].text, "a");
    let fs = parse_fortunes("p", "%\n%\nb\nc\n%\n%\n");
    assert_eq!(fs.len(), 1);
    assert_eq!(fs[0].text, "b\nc");
}

#[test]
fn unseeded_pick_is_one_of_the_quotations() {
    let fs = vec![
        Fortune { source: "a".to_string(), text: "one".to_string() },
        Fortune { source: "a".to_string(), text: "two".to_string() },
    ];
    let t = pick_fortune(&fs, None).unwrap();
    assert!(t == "one" || t == "two");
}

fn lines(out: &[Printed]) -> Vec<(bool, String)> {
    out.iter()
        .map(|p| match p {
            Printed::Stdout(s) => (false, s.clone()),
            Printed::Stderr(s) => (true, s.clone()),
        })
        .collect()
}

#[test]
fn matching_fortunes_are_grouped_by_source() {
    let fs = vec![
        Fortune { source: "a".to_string(), text: "apple".to_string() },
        Fortune { source: "a".to_string(), text: "avocado".to_string() },
        Fortune { source: "b".to_string(), text: "banana".to_string() },
        Fortune { source: "b".to_string(), text: "cherry".to_string() },
    ];
    let p = Some(Pattern::new("a", false).unwrap());
    let out = lines(&run_output(&fs, &p, None));
    assert_eq!(
        out,
        vec![
            (true, "(a)\n%".to_string()),
            (false, "apple\n%".to_string()),
            (false, "avocado\n%".to_string()),
            (true, "(b)\n%".to_string()),
            (false, "banana\n%".to_string()),
        ]
    );
    assert_eq!(lines(&run_output(&[], &None, None)), vec![(false, "No fortunes found".to_string())]);
    assert_eq!(lines(&my_run_output(&[], &p, None)), vec![(false, "No fortunes found".to_string())]);
    assert_eq!(lines(&run_output(&[], &p, None)), vec![]);
}

#[test]
fn bad_fortune_pattern() {
    let args = Args { sources: vec![], pattern: Some("(".to_string()), seed: None, insensitive: false };
    assert_eq!(config_from_args(args).err(), Some("Invalid --pattern \"(\"".to_string()));
}

#[test]
fn fortune_files_sorted_by_component_without_dat() {
    let found: Vec<String> = [
        "b/x",
        "a.b/y",
        "a/z",
        "jokes.dat",
        "jokes",
        ".dat",
        "a/z",
        "./a//z",
        "a/./z",
        "/abs/q",
        "../up",
        "x.dat.txt",
        "x.",
    ]
    .iter()
    .map(|s| s.to_string())
    .collect();
    let files = fortune_files(&found);
    // As strings "a.b/y" < "a/z" ('.' < '/'); by components "a" < "a.b".
    assert_eq!(
        files,
        vec!["/abs/q", "./a//z", "../up", ".dat", "a/z", "a.b/y", "b/x", "jokes", "x.", "x.dat.txt"]
            .iter()
            .map(|s| s.to_string())
            .collect::<Vec<String>>()
    );
    let mut expected: Vec<std::path::PathBuf> = found
        .iter()
        .map(std::path::PathBuf::from)
        .filter(|p| p.extension().map_or(true, |e| e != "dat"))
        .collect();
    expected.sort();
    expected.dedup();
    let got: Vec<std::path::PathBuf> = files.iter().map(std::path::PathBuf::from).collect();
    assert_eq!(got, expected);
}

#[test]
fn fortune_files_keep_the_first_spelling_of_a_path() {
    let found: Vec<String> = vec!["a/./z".to_string(), "b".to_string(), "a//z".to_string(), "a/z".to_string()];
    assert_eq!(fortune_files(&found), vec!["a/./z".to_string(), "b".to_string()]);
}

fn entry(p: &str, is_file: bool) -> WalkEntry {
    WalkEntry::Entry { path: p.to_string(), is_file }
}

/// What walking the sample directory meets, in walk order.
fn walk_inputs() -> Vec<WalkEntry> {
    vec![
        entry("./tests/inputs", false),
        entry("./tests/inputs/quotes", true),
        entry("./tests/inputs/jokes.dat", true),
        entry("./tests/inputs/jokes", true),
        entry("./tests/inputs/literature", true),
        entry("./tests/inputs/ascii-art", true),
        entry("./tests/inputs/quotes.dat", true),
        entry("./tests/inputs/empty", true),
    ]
}

#[test]
fn lib_test_find_files() {
    let jokes = || SourceWalk::Walked(vec![entry("./tests/inputs/jokes", true)]);
    let res = find_fortune_files(&vec!["./tests/inputs/jokes".to_string()], &vec![jokes()]);
    assert!(res.is_ok());
    let files = res.unwrap();
    assert_eq!(files.len(), 1);
    assert_eq!(files.first().unwrap(), "./tests/inputs/jokes");

    let res = find_fortune_files(
        &vec!["/path/does/not/exist".to_string()],
        &vec![SourceWalk::Missing("No such file or directory (os error 2)".to_string())],
    );
    assert!(res.is_err());
    assert_eq!(res.unwrap_err(), "/path/does/not/exist: No such file or directory (os error 2)");

    let res = find_fortune_files(&vec!["./tests/inputs".to_string()], &vec![SourceWalk::Walked(walk_inputs())]);
    assert!(res.is_ok());
    let files = res.unwrap();
    assert_eq!(files.len(), 5);
    assert!(files.first().unwrap().contains("ascii-art"));
    assert!(files.last().unwrap().contains("quotes"));

    let ascii = SourceWalk::Walked(vec![entry("./tests/inputs/ascii-art", true)]);
    let res = find_fortune_files(
        &vec![
            "./tests/inputs/jokes".to_string(),
            "./tests/inputs/ascii-art".to_string(),
            "./tests/inputs/jokes".to_string(),
        ],
        &vec![jokes(), ascii, jokes()],
    );
    assert!(res.is_ok());
    let files = res.unwrap();
    assert_eq!(files.len(), 2);
    assert_eq!(file_name_of(files.first().unwrap()), Some("ascii-art".to_string()));
    assert_eq!(file_name_of(files.last().unwrap()), Some("jokes".to_string()));
}

#[test]
fn both_walks_agree_without_errors_and_differ_on_one() {
    let sources = vec!["./tests/inputs".to_string()];
    let found = find_fortune_files(&sources, &vec![SourceWalk::Walked(walk_inputs())]);
    let strictly = my_find_fortune_files(&vec![walk_inputs()]);
    assert_eq!(found, strictly);
    let broken = || {
        let mut w = walk_inputs();
        w.insert(3, WalkEntry::Error("./tests/inputs/locked: Permission denied".to_string()));
        w
    };
    assert_eq!(find_fortune_files(&sources, &vec![SourceWalk::Walked(broken())]), found);
    assert_eq!(
        my_find_fortune_files(&vec![broken()]),
        Err("./tests/inputs/locked: Permission denied".to_string())
    );
}

#[test]
fn test_read_fortunes() {
    let jokes = "Q. What do you call a head of lettuce in a shirt and tie?\n\
                 A. Collared greens.\n%\n\
                 Q: Why did the gardener quit his job?\nA: His celery wasn't high enough.\n%\n\
                 Q. Why did the honeydew couldn't marry the cantaloupe?\nA. They cantaloupe.\n%\n\
                 Q: What's the best thing about a Boolean?\nA: Even if you're wrong, you're only off by a bit.\n%\n\
                 Q: What do you call a deer with no eyes?\nA: No idea.\n%\n\
                 Q: What do you call a deer wearing an eye patch?\n\
                 A: A bad idea (bad-eye deer).\n%\n";
    let quotes = "You can observe a lot just by watching.\n-- Yogi Berra\n%\n\
                  It is difficult to get a man to understand something.\n%\n\
                  Neckties strangle clear thinking.\n%\n\
                  Assumption is the mother of all screw-ups.\n%\n\
                  Real artists ship.\n%\n";
    let fortunes = parse_fortunes("jokes", jokes);
    assert_eq!(fortunes.len(), 6);
    assert_eq!(
        fortunes.first().unwrap().text,
        "Q. What do you call a head of lettuce in a shirt and tie?\n\
        A. Collared greens."
    );
    assert_eq!(
        fortunes.last().unwrap().text,
        "Q: What do you call a deer wearing an eye patch?\n\
        A: A bad idea (bad-eye deer)."
    );
    let mut all = parse_fortunes("jokes", jokes);
    all.extend(parse_fortunes("quotes", quotes));
    assert_eq!(all.len(), 11);
}
