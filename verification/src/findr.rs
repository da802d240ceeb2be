//! `findr`: lists the entries under paths that have one of the given types
//! and whose names match one of the given patterns.
use vstd::prelude::*;
use crate::pattern::{regex_build_error, regex_matches, Pattern};

verus! {

/// A kind of directory entry.
#[derive(Clone, Copy, Debug, PartialEq, Eq, Structural)]
pub enum EntryType {
    Dir,
    File,
    Link,
}

/// A directory entry as a walk of the file system reports it: its path, the
/// last part of it, and its kind.
pub struct FileEntry {
    pub path: String,
    pub file_name: String,
    pub is_dir: bool,
    pub is_file: bool,
    pub is_symlink: bool,
}

/// What to look for, and where.
pub struct Config {
    pub paths: Vec<String>,
    pub names: Vec<Pattern>,
    pub types: Vec<EntryType>,
}

/// Reads an entry type: `d`, `f` or `l`.
pub fn parse_type(entry_type: &str) -> (r: Result<EntryType, String>)
    ensures
        entry_type@ == "d"@ ==> r == Ok::<EntryType, String>(EntryType::Dir),
        entry_type@ == "f"@ ==> r == Ok::<EntryType, String>(EntryType::File),
        entry_type@ == "l"@ ==> r == Ok::<EntryType, String>(EntryType::Link),
        entry_type@ != "d"@ && entry_type@ != "f"@ && entry_type@ != "l"@ ==> (r matches Err(e)
            && e@ == "Invalid entry type '"@ + entry_type@ + "'. Expected one of: d, f, l."@),
{
    proof {
        reveal_strlit("d");
        reveal_strlit("f");
        reveal_strlit("l");
        assert("d"@ =~= seq!['d']);
        assert("f"@ =~= seq!['f']);
        assert("l"@ =~= seq!['l']);
        assert("d"@[0] != "f"@[0]);
        assert("d"@[0] != "l"@[0]);
        assert("d"@ != "f"@);
        assert("d"@ != "l"@);
        assert("f"@ != "l"@);
    }
    if crate::text::same_text(entry_type, "d") {
        Ok(EntryType::Dir)
    } else if crate::text::same_text(entry_type, "f") {
        Ok(EntryType::File)
    } else if crate::text::same_text(entry_type, "l") {
        Ok(EntryType::Link)
    } else {
        let mut e = "Invalid entry type '".to_owned();
        e.append(entry_type);
        e.append("'. Expected one of: d, f, l.");
        Err(e)
    }
}

/// Compiles a name pattern; on failure, a message naming it.
pub fn parse_name(name: &str) -> (r: Result<Pattern, String>)
    ensures
        match regex_build_error(name@, false) {
            None => r matches Ok(p) && p.source_text() == name@ && !p.ignores_case(),
            Some(msg) => r matches Err(e) && e@ == "Invalid regex '"@ + name@ + "': "@ + msg,
        },
{
    match Pattern::new(name, false) {
        Ok(p) => Ok(p),
        Err(msg) => {
            let mut e = "Invalid regex '".to_owned();
            e.append(name);
            e.append("': ");
            e.append(msg.as_str());
            Err(e)
        },
    }
}

/// Whether an entry is of kind `t`.
pub open spec fn has_type(entry: FileEntry, t: EntryType) -> bool {
    match t {
        EntryType::Dir => entry.is_dir,
        EntryType::File => entry.is_file,
        EntryType::Link => entry.is_symlink,
    }
}

/// The kinds asked for admit the entry, as `check_entry_type` decides: any
/// entry when none is asked for; otherwise the first of directory, file and
/// link that the entry is must be asked for.
pub open spec fn type_admits(entry: FileEntry, types: Seq<EntryType>) -> bool {
    types.len() == 0 || if entry.is_dir {
        types.contains(EntryType::Dir)
    } else if entry.is_file {
        types.contains(EntryType::File)
    } else if entry.is_symlink {
        types.contains(EntryType::Link)
    } else {
        false
    }
}

/// The kinds asked for admit the entry, as `check_entry_type_v2` decides:
/// any entry when none is asked for; otherwise the entry must be of one of
/// them.
pub open spec fn type_admits_any(entry: FileEntry, types: Seq<EntryType>) -> bool {
    types.len() == 0 || exists|i: int| 0 <= i < types.len() && has_type(entry, #[trigger] types[i])
}

fn contains_type(types: &[EntryType], t: EntryType) -> (b: bool)
    ensures
        b == types@.contains(t),
{
    let mut i: usize = 0;
    while i < types.len()
        invariant
            i <= types.len(),
            forall|k: int| 0 <= k < i ==> types@[k] != t,
        decreases types.len() - i,
    {
        if types[i] == t {
            return true;
        }
        i += 1;
    }
    false
}

/// Whether the entry has one of the types asked for.
pub fn check_entry_type(entry: &FileEntry, types: &[EntryType]) -> (b: bool)
    ensures
        b == type_admits(*entry, types@),
{
    if types.len() == 0 {
        return true;
    }
    if entry.is_dir {
        contains_type(types, EntryType::Dir)
    } else if entry.is_file {
        contains_type(types, EntryType::File)
    } else if entry.is_symlink {
        contains_type(types, EntryType::Link)
    } else {
        false
    }
}

/// Whether the entry has one of the types asked for.
pub fn check_entry_type_v2(entry: &FileEntry, types: &[EntryType]) -> (b: bool)
    ensures
        b == type_admits_any(*entry, types@),
{
    if types.len() == 0 {
        return true;
    }
    let mut i: usize = 0;
    while i < types.len()
        invariant
            i <= types.len(),
            forall|k: int| 0 <= k < i ==> !has_type(*entry, #[trigger] types@[k]),
        decreases types.len() - i,
    {
        let hit = match types[i] {
            EntryType::Dir => entry.is_dir,
            EntryType::File => entry.is_file,
            EntryType::Link => entry.is_symlink,
        };
        if hit {
            return true;
        }
        i += 1;
    }
    false
}

/// The patterns asked for admit the entry: any entry when there are none;
/// otherwise one of them must match the entry's name.
pub open spec fn name_admits(entry: FileEntry, names: Seq<Pattern>) -> bool {
    names.len() == 0 || exists|i: int|
        0 <= i < names.len() && regex_matches(
            #[trigger] names[i].source_text(),
            names[i].ignores_case(),
            entry.file_name@,
        )
}

/// Whether one of the patterns matches the entry's name.
pub fn check_entry_name(entry: &FileEntry, names: &[Pattern]) -> (b: bool)
    ensures
        b == name_admits(*entry, names@),
{
    if names.len() == 0 {
        return true;
    }
    let mut i: usize = 0;
    while i < names.len()
        invariant
            i <= names.len(),
            forall|k: int|
                0 <= k < i ==> !regex_matches(
                    #[trigger] names@[k].source_text(),
                    names@[k].ignores_case(),
                    entry.file_name@,
                ),
        decreases names.len() - i,
    {
        if names[i].is_match(entry.file_name.as_str()) {
            return true;
        }
        i += 1;
    }
    false
}

/// Whether one of the patterns matches the entry's name.
pub fn check_entry_name_v2(entry: &FileEntry, names: &[Pattern]) -> (b: bool)
    ensures
        b == name_admits(*entry, names@),
{
    names.len() == 0 || check_entry_name(entry, names)
}

/// The two ways of checking an entry's type agree on every entry that is of
/// at most one kind, as a file system entry is.
pub proof fn type_checks_agree(entry: FileEntry, types: Seq<EntryType>)
    requires
        !(entry.is_dir && entry.is_file),
        !(entry.is_dir && entry.is_symlink),
        !(entry.is_file && entry.is_symlink),
    ensures
        type_admits(entry, types) == type_admits_any(entry, types),
{
    if types.len() > 0 {
        if type_admits(entry, types) {
            let t = if entry.is_dir {
                EntryType::Dir
            } else if entry.is_file {
                EntryType::File
            } else {
                EntryType::Link
            };
            let i = choose|i: int| 0 <= i < types.len() && types[i] == t;
            assert(has_type(entry, types[i]));
        }
        if type_admits_any(entry, types) {
            let i = choose|i: int| 0 <= i < types.len() && has_type(entry, #[trigger] types[i]);
            assert(types.contains(types[i]));
        }
    }
}

/// The paths of the entries that have one of the types and whose names
/// match one of the patterns, in order.
pub open spec fn selected_paths(entries: Seq<FileEntry>, config: Config) -> Seq<Seq<char>>
    decreases entries.len(),
{
    if entries.len() == 0 {
        seq![]
    } else {
        let rest = selected_paths(entries.drop_last(), config);
        let e = entries.last();
        if type_admits_any(e, config.types@) && name_admits(e, config.names@) {
            rest.push(e.path@)
        } else {
            rest
        }
    }
}

/// The paths of the entries that the search asks for, in order.
pub fn select_entries(entries: &Vec<FileEntry>, config: &Config) -> (paths: Vec<String>)
    ensures
        crate::text::views(paths@) == selected_paths(entries@, *config),
{
    let mut paths: Vec<String> = Vec::new();
    let mut i: usize = 0;
    while i < entries.len()
        invariant
            i <= entries.len(),
            crate::text::views(paths@) == selected_paths(entries@.take(i as int), *config),
        decreases entries.len() - i,
    {
        let ghost s = entries@.take(i + 1);
        assert(s.drop_last() =~= entries@.take(i as int));
        assert(s.last() == entries@[i as int]);
        let ghost old = crate::text::views(paths@);
        if check_entry_type_v2(&entries[i], config.types.as_slice()) && check_entry_name_v2(
            &entries[i],
            config.names.as_slice(),
        ) {
            paths.push(entries[i].path.clone());
            assert(crate::text::views(paths@) =~= old.push(entries@[i as int].path@));
        }
        i += 1;
    }
    assert(entries@.take(entries.len() as int) =~= entries@);
    paths
}

} // verus!
