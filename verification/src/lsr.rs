//! `lsr`: lists files and directories, optionally in a long format with
//! permissions, link count, owner, group, size and modification time.
use vstd::prelude::*;
use crate::text::{decimal, u64_to_string};

verus! {

#[verifier::external_type_specification]
#[verifier::external_body]
pub struct ExTable(tabular::Table);

#[verifier::external_type_specification]
#[verifier::external_body]
pub struct ExRow(tabular::Row);

/// The row format a table was made with.
pub uninterp spec fn table_format(t: tabular::Table) -> Seq<char>;

/// The cells of the rows added to a table, row by row.
pub uninterp spec fn table_cells(t: tabular::Table) -> Seq<Seq<Seq<char>>>;

/// The cells of a row.
pub uninterp spec fn row_cells(r: tabular::Row) -> Seq<Seq<char>>;

/// What a table with a row format and rows of cells prints as.
pub uninterp spec fn tabulated(format: Seq<char>, rows: Seq<Seq<Seq<char>>>) -> Seq<char>;

/// The number of columns of a row format as `tabular` reads it, or nothing
/// when it is malformed: `{:<}`, `{:^}` and `{:>}` each make a column, `{{`
/// and `}}` stand for a brace, any other brace is an error, and every other
/// character stands for itself.
pub open spec fn row_spec_columns(s: Seq<char>) -> Option<nat>
    decreases s.len(),
{
    if s.len() == 0 {
        Some(0)
    } else if s[0] == '{' {
        if s.len() >= 2 && s[1] == '{' {
            row_spec_columns(s.skip(2))
        } else if s.len() >= 4 && s[1] == ':' && (s[2] == '<' || s[2] == '>' || s[2] == '^')
            && s[3] == '}' {
            match row_spec_columns(s.skip(4)) {
                Some(n) => Some(n + 1),
                None => None,
            }
        } else {
            None
        }
    } else if s[0] == '}' {
        if s.len() >= 2 && s[1] == '}' {
            row_spec_columns(s.skip(2))
        } else {
            None
        }
    } else {
        row_spec_columns(s.skip(1))
    }
}

/// `tabular::Table::new`: an empty table with the given row format (which
/// must be well formed, else it panics).
#[verifier::external_body]
fn table_new(format: &str) -> (t: tabular::Table)
    requires
        row_spec_columns(format@) is Some,
    ensures
        table_format(t) == format@,
        table_cells(t) == Seq::<Seq<Seq<char>>>::empty(),
{
    tabular::Table::new(format)
}

/// `tabular::Row::new`: a row without cells.
#[verifier::external_body]
fn row_new() -> (r: tabular::Row)
    ensures
        row_cells(r) == Seq::<Seq<char>>::empty(),
{
    tabular::Row::new()
}

/// `tabular::Row::with_cell`: the row with one more cell, holding the text.
#[verifier::external_body]
fn row_with_cell(row: tabular::Row, cell: &str) -> (r: tabular::Row)
    ensures
        row_cells(r) == row_cells(row).push(cell@),
{
    row.with_cell(cell)
}

/// `tabular::Table::add_row`: the table with one more row (which must have
/// as many cells as the format has columns, else it panics).
#[verifier::external_body]
fn table_add_row(table: &mut tabular::Table, row: tabular::Row)
    requires
        row_spec_columns(table_format(*old(table))) == Some(row_cells(row).len()),
    ensures
        table_format(*final(table)) == table_format(*old(table)),
        table_cells(*final(table)) == table_cells(*old(table)).push(row_cells(row)),
{
    table.add_row(row);
}

/// The `Display` of a `tabular::Table`.
#[verifier::external_body]
fn table_text(table: &tabular::Table) -> (s: String)
    ensures
        s@ == tabulated(table_format(*table), table_cells(*table)),
{
    table.to_string()
}

/// Whose permissions a triple describes.
#[derive(Clone, Copy, Debug, PartialEq, Eq, Structural)]
pub enum Owner {
    User,
    Group,
    Other,
}

/// The read, write and execute bits of an owner in a file mode.
pub open spec fn owner_masks(owner: Owner) -> Seq<u32> {
    match owner {
        Owner::User => seq![0o400u32, 0o200u32, 0o100u32],
        Owner::Group => seq![0o40u32, 0o20u32, 0o10u32],
        Owner::Other => seq![0o4u32, 0o2u32, 0o1u32],
    }
}

impl Owner {
    /// The read, write and execute bits of this owner.
    pub fn masks(&self) -> (m: [u32; 3])
        ensures
            m@ == owner_masks(*self),
    {
        let m = match self {
            Owner::User => [0o400u32, 0o200u32, 0o100u32],
            Owner::Group => [0o40u32, 0o20u32, 0o10u32],
            Owner::Other => [0o4u32, 0o2u32, 0o1u32],
        };
        assert(m@ =~= owner_masks(*self));
        m
    }
}

/// The permissions of one owner: `r`, `w` and `x` for the bits set, `-`
/// for those not set.
pub open spec fn triple(mode: u32, owner: Owner) -> Seq<char> {
    let m = owner_masks(owner);
    seq![
        if mode & m[0] != 0 { 'r' } else { '-' },
        if mode & m[1] != 0 { 'w' } else { '-' },
        if mode & m[2] != 0 { 'x' } else { '-' },
    ]
}

/// The permissions of one owner in a file mode, such as `r-x`.
pub fn mk_triple(mode: u32, owner: Owner) -> (s: String)
    ensures
        s@ == triple(mode, owner),
{
    let m = owner.masks();
    let mut s = String::new();
    crate::text::push_char(&mut s, if mode & m[0] != 0 { 'r' } else { '-' });
    crate::text::push_char(&mut s, if mode & m[1] != 0 { 'w' } else { '-' });
    crate::text::push_char(&mut s, if mode & m[2] != 0 { 'x' } else { '-' });
    assert(s@ =~= triple(mode, owner));
    s
}

/// The permissions of a file mode, such as `rwxr-x--x` for `0o751`.
pub open spec fn mode_text(mode: u32) -> Seq<char> {
    triple(mode, Owner::User) + triple(mode, Owner::Group) + triple(mode, Owner::Other)
}

/// The permissions of a file mode, as `ls -l` shows them.
pub fn format_mode(mode: u32) -> (s: String)
    ensures
        s@ == mode_text(mode),
{
    let mut s = mk_triple(mode, Owner::User);
    let g = mk_triple(mode, Owner::Group);
    let o = mk_triple(mode, Owner::Other);
    s.append(g.as_str());
    s.append(o.as_str());
    s
}


/// The command line as given.
pub struct Args {
    pub paths: Vec<String>,
    pub show_hidden: bool,
    pub long: bool,
}

/// What to list, and how.
pub struct Config {
    pub paths: Vec<String>,
    pub long: bool,
    pub show_hidden: bool,
}

/// The configuration a command line asks for.
pub fn config_from_args(args: Args) -> (c: Config)
    ensures
        c.paths@ == args.paths@,
        c.long == args.long,
        c.show_hidden == args.show_hidden,
{
    Config { paths: args.paths, long: args.long, show_hidden: args.show_hidden }
}

/// Whether an entry found in a directory is listed: hidden entries (whose
/// names start with a dot) only when they are asked for.
pub fn is_listed(file_name: &str, show_hidden: bool) -> (b: bool)
    ensures
        b == (show_hidden || !(file_name@.len() > 0 && file_name@[0] == '.')),
{
    proof {
        reveal_strlit(".");
        assert("."@ =~= seq!['.']);
    }
    let hidden = crate::text::starts_with(file_name, ".");
    assert(hidden == (file_name@.len() > 0 && file_name@[0] == '.')) by {
        if file_name@.len() > 0 && file_name@[0] == '.' {
            assert("."@.is_prefix_of(file_name@));
        }
        if "."@.is_prefix_of(file_name@) {
            assert(file_name@[0] == "."@[0]);
        }
    }
    show_hidden || !hidden
}

/// What the long listing shows of one path.
pub struct LongEntry {
    pub is_dir: bool,
    pub mode: u32,
    pub nlink: u64,
    pub user: String,
    pub group: String,
    pub size: u64,
    pub modified: String,
    pub path: String,
}

/// The row format of the long listing.
pub open spec fn long_format() -> Seq<char> {
    "{:<}{:<}  {:>}  {:<}  {:<}  {:>}  {:<} {:<}"@
}

/// The cells of an entry's row: kind, permissions, links, user, group,
/// size, modification time and path.
pub open spec fn long_cells(e: LongEntry) -> Seq<Seq<char>> {
    seq![
        if e.is_dir { "d"@ } else { "-"@ },
        mode_text(e.mode),
        decimal(e.nlink as nat),
        e.user@,
        e.group@,
        decimal(e.size as nat),
        e.modified@,
        e.path@,
    ]
}

proof fn lemma_long_format_columns()
    ensures
        row_spec_columns(long_format()) == Some(8nat),
{
    reveal_strlit("{:<}{:<}  {:>}  {:<}  {:<}  {:>}  {:<} {:<}");
    reveal_with_fuel(row_spec_columns, 30);
}

fn entry_row(e: &LongEntry) -> (r: tabular::Row)
    ensures
        row_cells(r) == long_cells(*e),
{
    let mut r = row_new();
    r = row_with_cell(r, if e.is_dir { "d" } else { "-" });
    let mode = format_mode(e.mode);
    r = row_with_cell(r, mode.as_str());
    let links = u64_to_string(e.nlink);
    r = row_with_cell(r, links.as_str());
    r = row_with_cell(r, e.user.as_str());
    r = row_with_cell(r, e.group.as_str());
    let size = u64_to_string(e.size);
    r = row_with_cell(r, size.as_str());
    r = row_with_cell(r, e.modified.as_str());
    r = row_with_cell(r, e.path.as_str());
    assert(row_cells(r) =~= long_cells(*e));
    r
}

/// The long listing of the entries: a table with one row per entry.
pub fn format_output(entries: &Vec<LongEntry>) -> (s: String)
    ensures
        s@ == tabulated(long_format(), entries@.map_values(|e: LongEntry| long_cells(e))),
{
    proof {
        lemma_long_format_columns();
    }
    let mut table = table_new("{:<}{:<}  {:>}  {:<}  {:<}  {:>}  {:<} {:<}");
    let mut i: usize = 0;
    while i < entries.len()
        invariant
            i <= entries.len(),
            table_format(table) == long_format(),
            row_spec_columns(long_format()) == Some(8nat),
            table_cells(table) == entries@.take(i as int).map_values(|e: LongEntry| long_cells(e)),
        decreases entries.len() - i,
    {
        let row = entry_row(&entries[i]);
        table_add_row(&mut table, row);
        assert(table_cells(table) =~= entries@.take(i + 1).map_values(|e: LongEntry| long_cells(e)));
        i += 1;
    }
    assert(entries@.take(entries.len() as int) =~= entries@);
    table_text(&table)
}


/// The permissions shown depend on the nine permission bits alone: the file
/// type and the special bits above them change nothing.
pub proof fn mode_text_reads_permission_bits(mode: u32)
    ensures
        mode_text(mode) == mode_text(mode & 0o777u32),
{
    assert(forall|b: u32|
        #![trigger mode & b]
        (b == 0o400u32 || b == 0o200u32 || b == 0o100u32 || b == 0o40u32 || b == 0o20u32 || b
            == 0o10u32 || b == 0o4u32 || b == 0o2u32 || b == 0o1u32) ==> ((mode & b != 0) == ((mode
            & 0o777u32) & b != 0))) by (bit_vector);
    assert(mode_text(mode) =~= mode_text(mode & 0o777u32));
}

} // verus!
