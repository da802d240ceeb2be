use workbench::wcr::{count, fill_default_counts, report, totals, Config, FileInfo};

#[test]
fn test_count() {
    let text = "I don't want the world. I just want your half.\r\n";
    let info = count(text);
    let expected = FileInfo {
        num_lines: 1,
        num_words: 10,
        num_bytes: 48,
        num_chars: 48,
    };
    assert_eq!(info, expected);
}

#[test]
fn count_multibyte_and_unterminated() {
    let info = count("héllo wörld\nlast");
    assert_eq!(info.num_lines, 2);
    assert_eq!(info.num_words, 3);
    assert_eq!(info.num_bytes, 18);
    assert_eq!(info.num_chars, 16);
    let empty = count("");
    assert_eq!(empty, FileInfo { num_lines: 0, num_words: 0, num_bytes: 0, num_chars: 0 });
}

#[test]
fn counts_of_concatenation_add_up() {
    let a = "one twö\n";
    let b = "three\nfour five é€";
    let whole = format!("{}{}", a, b);
    let (ca, cb, cw) = (count(a), count(b), count(&whole));
    assert_eq!(cw.num_lines, ca.num_lines + cb.num_lines);
    assert_eq!(cw.num_words, ca.num_words + cb.num_words);
    assert_eq!(cw.num_chars, ca.num_chars + cb.num_chars);
    assert_eq!(cw.num_bytes, ca.num_bytes + cb.num_bytes);
    assert_eq!(cw.num_bytes, 30);
}

#[test]
fn default_counts_and_report() {
    let mut config = Config { files: vec!["-".to_string()], lines: false, words: false, bytes: false, chars: false };
    fill_default_counts(&mut config);
    assert!(config.lines && config.words && config.bytes && !config.chars);
    assert_eq!(report(&config, 1, 10, 48, 48, "-"), "       1      10      48");
    assert_eq!(report(&config, 1, 10, 48, 48, "a.txt"), "       1      10      48 a.txt");
    let mut only_chars = Config { files: vec![], lines: false, words: false, bytes: false, chars: true };
    fill_default_counts(&mut only_chars);
    assert!(!only_chars.lines && only_chars.chars);
    assert_eq!(report(&only_chars, 1, 2, 3, 4, "f"), "       4 f");
}

#[test]
fn totals_sum_and_overflow() {
    let infos = vec![
        FileInfo { num_lines: 1, num_words: 2, num_bytes: 3, num_chars: 4 },
        FileInfo { num_lines: 10, num_words: 20, num_bytes: 30, num_chars: 40 },
    ];
    assert_eq!(totals(&infos), Some(FileInfo { num_lines: 11, num_words: 22, num_bytes: 33, num_chars: 44 }));
    let big = vec![
        FileInfo { num_lines: usize::MAX, num_words: 0, num_bytes: 0, num_chars: 0 },
        FileInfo { num_lines: 1, num_words: 0, num_bytes: 0, num_chars: 0 },
    ];
    assert_eq!(totals(&big), None);
}
