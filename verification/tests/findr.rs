use workbench::text::join_lines;
use workbench::findr::{
    check_entry_name, check_entry_name_v2, check_entry_type, check_entry_type_v2,
    parse_name, parse_type, select_entries, Config, EntryType, FileEntry,
};

fn file_entry() -> FileEntry {
    FileEntry {
        path: "tmp/test_file".to_string(),
        file_name: "test_file".to_string(),
        is_dir: false,
        is_file: true,
        is_symlink: false,
    }
}

fn dir_entry() -> FileEntry {
    FileEntry {
        path: "tmp/test_dir".to_string(),
        file_name: "test_dir".to_string(),
        is_dir: true,
        is_file: false,
        is_symlink: false,
    }
}

#[test]
fn test_check_entry_type() {
    let file_entry = file_entry();
    let dir_entry = dir_entry();

    assert!(check_entry_type(&file_entry, &[EntryType::File]));
    assert!(!check_entry_type(&file_entry, &[EntryType::Dir]));

    assert!(check_entry_type(&dir_entry, &[EntryType::Dir]));
    assert!(!check_entry_type(&dir_entry, &[EntryType::File]));

    assert!(check_entry_type(&file_entry, &[EntryType::File, EntryType::Dir]));
    assert!(check_entry_type(&dir_entry, &[EntryType::File, EntryType::Dir]));

    assert!(check_entry_type(&file_entry, &[]));
}

#[test]
fn test_check_entry_name() {
    let file_entry = file_entry();
    let regex = parse_name(r"^test_file$").unwrap();
    assert!(check_entry_name(&file_entry, &[regex]));
}

#[test]
fn entry_checks_agree() {
    let link = FileEntry {
        path: "l".to_string(),
        file_name: "l".to_string(),
        is_dir: false,
        is_file: false,
        is_symlink: true,
    };
    let all = [EntryType::Dir, EntryType::File, EntryType::Link];
    for e in [file_entry(), dir_entry(), link] {
        for n in 0..=all.len() {
            assert_eq!(check_entry_type(&e, &all[..n]), check_entry_type_v2(&e, &all[..n]));
        }
    }
    let names = vec![parse_name("dir").unwrap(), parse_name("^x").unwrap()];
    assert!(check_entry_name_v2(&dir_entry(), &names));
    assert!(!check_entry_name_v2(&file_entry(), &names));
    assert!(check_entry_name_v2(&file_entry(), &[]));
}

#[test]
fn parse_type_and_name_errors() {
    assert_eq!(parse_type("d"), Ok(EntryType::Dir));
    assert_eq!(parse_type("f"), Ok(EntryType::File));
    assert_eq!(parse_type("l"), Ok(EntryType::Link));
    assert_eq!(
        parse_type("x"),
        Err("Invalid entry type 'x'. Expected one of: d, f, l.".to_string())
    );
    let err = parse_name("(").err().unwrap();
    assert!(err.starts_with("Invalid regex '(': "));
}

#[test]
fn selection_and_output() {
    let config = Config {
        paths: vec![".".to_string()],
        names: vec![parse_name("test").unwrap()],
        types: vec![EntryType::File],
    };
    let entries = vec![dir_entry(), file_entry()];
    let found = select_entries(&entries, &config);
    assert_eq!(found, vec!["tmp/test_file".to_string()]);
    assert_eq!(join_lines(&vec!["a".to_string(), "b".to_string()]), "a\nb");
    assert_eq!(join_lines(&vec![]), "");
}
