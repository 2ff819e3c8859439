//! The metadata tool: which fields are shown, and the permission digits.

use vstd::prelude::*;
use crate::text::{lowercase_of, split_char, split_on, str_eq, to_lowercase};

verus! {

/// The fields the metadata tool knows.
pub open spec fn known_field(f: Seq<char>) -> bool {
    f == "name"@ || f == "type"@ || f == "size"@ || f == "perms"@ || f == "usrown"@ || f == "grpown"@
        || f == "inode"@ || f == "hlinks"@ || f == "atime"@ || f == "ctime"@ || f == "mtime"@
}

/// Whether `f` is a known field.
pub fn is_known_field(f: &str) -> (r: bool)
    ensures
        r == known_field(f@),
{
    str_eq(f, "name") || str_eq(f, "type") || str_eq(f, "size") || str_eq(f, "perms") || str_eq(
        f,
        "usrown",
    ) || str_eq(f, "grpown") || str_eq(f, "inode") || str_eq(f, "hlinks") || str_eq(f, "atime")
        || str_eq(f, "ctime") || str_eq(f, "mtime")
}

/// The fields asked for, already in lowercase: all of them when every one
/// is known, otherwise the position of the first unknown one.
pub fn check_fields(lowered: Vec<String>) -> (r: Result<Vec<String>, usize>)
    ensures
        match r {
            Ok(v) => v@ == lowered@ && forall|i: int|
                0 <= i < lowered@.len() ==> known_field(#[trigger] lowered@[i]@),
            Err(i) => i < lowered@.len() && !known_field(lowered@[i as int]@) && forall|j: int|
                0 <= j < i ==> known_field(#[trigger] lowered@[j]@),
        },
{
    let mut i: usize = 0;
    while i < lowered.len()
        invariant
            i <= lowered@.len(),
            forall|j: int| 0 <= j < i ==> known_field(#[trigger] lowered@[j]@),
        decreases lowered@.len() - i,
    {
        if !is_known_field(lowered[i].as_str()) {
            return Err(i);
        }
        i = i + 1;
    }
    Ok(lowered)
}

/// The fields of a `-field` value: its comma separated names, in lowercase;
/// the position of the first unknown name when there is one.
pub fn parse_fields(value: &str) -> (r: Result<Vec<String>, usize>)
    ensures
        ({
            let names = split_on(value@, ',');
            match r {
                Ok(v) => v@.len() == names.len() && forall|i: int|
                    0 <= i < names.len() ==> (#[trigger] v@[i])@ == lowercase_of(names[i]) && known_field(
                        lowercase_of(names[i]),
                    ),
                Err(i) => i < names.len() && !known_field(lowercase_of(names[i as int])) && forall|j: int|
                    0 <= j < i ==> known_field(lowercase_of(#[trigger] names[j])),
            }
        }),
{
    let pieces = split_char(value, ',');
    let ghost names = pieces.deep_view();
    let mut lowered: Vec<String> = Vec::new();
    let mut i: usize = 0;
    while i < pieces.len()
        invariant
            i <= pieces@.len(),
            names == pieces.deep_view(),
            lowered@.len() == i,
            forall|j: int| 0 <= j < i ==> (#[trigger] lowered@[j])@ == lowercase_of(names[j]),
        decreases pieces@.len() - i,
    {
        assert(names[i as int] == pieces@[i as int]@);
        lowered.push(to_lowercase(pieces[i].as_str()));
        i = i + 1;
    }
    assert(names.len() == lowered@.len());
    let r = check_fields(lowered);
    proof {
        if r is Ok {
            let v = r->Ok_0;
            assert forall|k: int| 0 <= k < names.len() implies (#[trigger] v@[k])@ == lowercase_of(names[k])
                && known_field(lowercase_of(names[k])) by {
                assert(v@[k] == lowered@[k]);
            }
        } else {
            let e = r->Err_0;
            assert(lowered@[e as int]@ == lowercase_of(names[e as int]));
            assert forall|j: int| 0 <= j < e implies known_field(lowercase_of(#[trigger] names[j])) by {
                assert(lowered@[j]@ == lowercase_of(names[j]));
            }
        }
    }
    r
}

/// The last four octal digits of a mode: additional, user, group, others.
pub open spec fn perm_digits_of(mode: u32) -> (u32, u32, u32, u32) {
    ((mode / 512) % 8, (mode / 64) % 8, (mode / 8) % 8, mode % 8)
}

/// The four permission digits of a mode, from the back of its octal form:
/// additional, user, group and others.
pub fn perm_digits(mode: u32) -> (r: (u32, u32, u32, u32))
    requires
        mode >= 0o1000,
    ensures
        r == perm_digits_of(mode),
{
    ((mode / 512) % 8, (mode / 64) % 8, (mode / 8) % 8, mode % 8)
}

/// The name of a file type: the first that holds of directory, file, link,
/// block device, character device, pipe and socket.
pub open spec fn file_kind_of(is_dir: bool, is_file: bool, is_symlink: bool, is_block: bool, is_char: bool, is_fifo: bool, is_socket: bool) -> Seq<char> {
    if is_dir {
        "Directory"@
    } else if is_file {
        "File"@
    } else if is_symlink {
        "Symlink"@
    } else if is_block {
        "Block"@
    } else if is_char {
        "Char"@
    } else if is_fifo {
        "Fifo"@
    } else if is_socket {
        "Socket"@
    } else {
        "Unknown"@
    }
}

/// The name of a file type, as the metadata tool shows it.
pub fn file_kind_name(is_dir: bool, is_file: bool, is_symlink: bool, is_block: bool, is_char: bool, is_fifo: bool, is_socket: bool) -> (r: &'static str)
    ensures
        r@ == file_kind_of(is_dir, is_file, is_symlink, is_block, is_char, is_fifo, is_socket),
{
    if is_dir {
        "Directory"
    } else if is_file {
        "File"
    } else if is_symlink {
        "Symlink"
    } else if is_block {
        "Block"
    } else if is_char {
        "Char"
    } else if is_fifo {
        "Fifo"
    } else if is_socket {
        "Socket"
    } else {
        "Unknown"
    }
}

/// The label a field is shown under: its name, or in human form a word or two.
pub open spec fn field_label_of(f: Seq<char>, human: bool) -> Seq<char> {
    if !human {
        f
    } else if f == "name"@ {
        "Name"@
    } else if f == "type"@ {
        "Type"@
    } else if f == "size"@ {
        "Size"@
    } else if f == "perms"@ {
        "Permissions"@
    } else if f == "usrown"@ {
        "Owner (user)"@
    } else if f == "grpown"@ {
        "Owner (group)"@
    } else if f == "inode"@ {
        "Inode"@
    } else if f == "hlinks"@ {
        "Hard links"@
    } else if f == "atime"@ {
        "Accessed"@
    } else if f == "ctime"@ {
        "Created"@
    } else {
        "Modified"@
    }
}

/// The label a known field is shown under (see [`field_label_of`]).
pub fn field_label(f: &str, human: bool) -> (r: String)
    requires
        known_field(f@),
    ensures
        r@ == field_label_of(f@, human),
{
    if !human {
        f.to_owned()
    } else if str_eq(f, "name") {
        "Name".to_owned()
    } else if str_eq(f, "type") {
        "Type".to_owned()
    } else if str_eq(f, "size") {
        "Size".to_owned()
    } else if str_eq(f, "perms") {
        "Permissions".to_owned()
    } else if str_eq(f, "usrown") {
        "Owner (user)".to_owned()
    } else if str_eq(f, "grpown") {
        "Owner (group)".to_owned()
    } else if str_eq(f, "inode") {
        "Inode".to_owned()
    } else if str_eq(f, "hlinks") {
        "Hard links".to_owned()
    } else if str_eq(f, "atime") {
        "Accessed".to_owned()
    } else if str_eq(f, "ctime") {
        "Created".to_owned()
    } else {
        "Modified".to_owned()
    }
}

/// The lengths and first letters of the field and type names.
proof fn lemma_field_name_facts()
    ensures
        "name"@.len() == 4 && "name"@[0] == 'n',
        "type"@.len() == 4 && "type"@[0] == 't',
        "size"@.len() == 4 && "size"@[0] == 's',
        "perms"@.len() == 5 && "perms"@[0] == 'p',
        "usrown"@.len() == 6 && "usrown"@[0] == 'u',
        "grpown"@.len() == 6 && "grpown"@[0] == 'g',
        "inode"@.len() == 5 && "inode"@[0] == 'i',
        "hlinks"@.len() == 6 && "hlinks"@[0] == 'h',
        "atime"@.len() == 5 && "atime"@[0] == 'a',
        "ctime"@.len() == 5 && "ctime"@[0] == 'c',
        "mtime"@.len() == 5 && "mtime"@[0] == 'm',
        "Directory"@.len() == 9 && "Directory"@[0] == 'D',
        "File"@.len() == 4 && "File"@[0] == 'F',
        "Symlink"@.len() == 7 && "Symlink"@[0] == 'S',
        "Block"@.len() == 5 && "Block"@[0] == 'B',
        "Char"@.len() == 4 && "Char"@[0] == 'C',
        "Fifo"@.len() == 4 && "Fifo"@[0] == 'F',
        "Socket"@.len() == 6 && "Socket"@[0] == 'S',
        "Unknown"@.len() == 7 && "Unknown"@[0] == 'U',
{
    reveal_strlit("name");
    reveal_strlit("type");
    reveal_strlit("size");
    reveal_strlit("perms");
    reveal_strlit("usrown");
    reveal_strlit("grpown");
    reveal_strlit("inode");
    reveal_strlit("hlinks");
    reveal_strlit("atime");
    reveal_strlit("ctime");
    reveal_strlit("mtime");
    reveal_strlit("Directory");
    reveal_strlit("File");
    reveal_strlit("Symlink");
    reveal_strlit("Block");
    reveal_strlit("Char");
    reveal_strlit("Fifo");
    reveal_strlit("Socket");
    reveal_strlit("Unknown");
}

/// The four digits are the mode's last four octal digits: each is below
/// eight, and together, read in octal, they give the mode without its file
/// type bits.
pub proof fn law_perm_digits_rebuild_mode(mode: u32)
    ensures
        ({
            let (a, u, g, o) = perm_digits_of(mode);
            &&& a < 8 && u < 8 && g < 8 && o < 8
            &&& a * 512 + u * 64 + g * 8 + o == mode % 4096
        }),
{
    let (a, u, g, o) = perm_digits_of(mode);
    let m = mode as int;
    assert(a * 512 + u * 64 + g * 8 + o == m % 4096) by (nonlinear_arith)
        requires
            a == (m / 512) % 8,
            u == (m / 64) % 8,
            g == (m / 8) % 8,
            o == m % 8,
            m >= 0,
    ;
}

/// A directory is always named a directory, whatever else is true of it;
/// a plain file that is no directory is a file; with nothing known the type
/// is unknown; the types have different names.
pub proof fn law_file_kind_names(a: bool, b: bool, c: bool, d: bool, e: bool, f: bool)
    ensures
        file_kind_of(true, a, b, c, d, e, f) == "Directory"@,
        file_kind_of(false, true, b, c, d, e, f) == "File"@,
        file_kind_of(false, false, true, c, d, e, f) == "Symlink"@,
        file_kind_of(false, false, false, false, false, false, false) == "Unknown"@,
        file_kind_of(false, false, false, false, false, true, false) == "Fifo"@,
        "Directory"@ != "File"@ && "File"@ != "Symlink"@ && "Block"@ != "Char"@ && "Fifo"@ != "Socket"@,
{
    lemma_field_name_facts();
}

/// Exactly the eleven field names are known; without the human form the
/// label is the field's name, with it each field has a label of its own.
pub proof fn law_field_labels(f: Seq<char>)
    ensures
        field_label_of(f, false) == f,
        field_label_of("perms"@, true) == "Permissions"@,
        field_label_of("usrown"@, true) == "Owner (user)"@,
        field_label_of("grpown"@, true) == "Owner (group)"@,
        field_label_of("hlinks"@, true) == "Hard links"@,
        field_label_of("name"@, true) == "Name"@,
        field_label_of("size"@, true) == "Size"@,
        field_label_of("inode"@, true) == "Inode"@,
        field_label_of("type"@, true) == "Type"@,
        known_field("mtime"@) && known_field("usrown"@) && !known_field("Name"@) && !known_field(""@),
{
    lemma_field_name_facts();
    reveal_strlit("Name");
    reveal_strlit("");
}

} // verus!
