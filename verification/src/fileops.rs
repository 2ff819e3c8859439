//! The decisions of the move and copy tools: how many sources there are,
//! what the destination is, which combinations are refused, and what is
//! done with each source.

use vstd::prelude::*;
use crate::text::str_eq;

verus! {

/// Why a move is refused before anything is touched.
#[derive(PartialEq, Eq, Structural, Debug, Clone, Copy)]
pub enum MoveError {
    /// Fewer than two names were given.
    TooFewNames,
    /// `ask` and `overwrite` were both asked for.
    AskAndOverwrite,
    /// Several sources, and the destination is a file.
    ManyToFile,
    /// A directory, and the destination is not a directory.
    DirToNonDir,
}

/// Whether several sources are named by `n` names (see [`many_sources`]).
pub open spec fn sources_of(n: int) -> Result<bool, MoveError> {
    if n == 2 {
        Ok(false)
    } else if n >= 3 {
        Ok(true)
    } else {
        Err(MoveError::TooFewNames)
    }
}

/// Whether there are several sources: two names make one source and a
/// destination, more make several sources; fewer are refused.
pub fn many_sources(n_names: usize) -> (r: Result<bool, MoveError>)
    ensures
        r == sources_of(n_names as int),
{
    if n_names == 2 {
        Ok(false)
    } else if n_names >= 3 {
        Ok(true)
    } else {
        Err(MoveError::TooFewNames)
    }
}

/// The check on the switches of a move.
pub open spec fn switches_check(ask: bool, overwrite: bool) -> Result<(), MoveError> {
    if ask && overwrite {
        Err::<(), MoveError>(MoveError::AskAndOverwrite)
    } else {
        Ok(())
    }
}

/// `ask` (question before overwriting) and `overwrite` cannot be asked for together.
pub fn switches_compatible(ask: bool, overwrite: bool) -> (r: Result<(), MoveError>)
    ensures
        r == switches_check(ask, overwrite),
{
    if ask && overwrite {
        Err(MoveError::AskAndOverwrite)
    } else {
        Ok(())
    }
}

/// Some name before position `j` equals the name at `j`.
pub open spec fn repeated_at(names: Seq<Seq<char>>, j: int) -> bool {
    exists|k: int| 0 <= k < j && names[k] == names[j]
}

/// The first position whose name was given before.
pub fn first_repeated(names: &Vec<String>) -> (r: Option<usize>)
    ensures
        match r {
            Some(j) => j < names@.len() && repeated_at(names.deep_view(), j as int) && forall|i: int|
                0 <= i < j ==> !repeated_at(names.deep_view(), i),
            None => forall|i: int| 0 <= i < names@.len() ==> !repeated_at(names.deep_view(), i),
        },
{
    let ghost ns = names.deep_view();
    let mut j: usize = 0;
    while j < names.len()
        invariant
            j <= names@.len(),
            ns == names.deep_view(),
            forall|i: int| 0 <= i < j ==> !repeated_at(ns, i),
        decreases names@.len() - j,
    {
        let mut k: usize = 0;
        while k < j
            invariant
                k <= j < names@.len(),
                ns == names.deep_view(),
                forall|m: int| 0 <= m < k ==> ns[m] != ns[j as int],
                forall|i: int| 0 <= i < j ==> !repeated_at(ns, i),
            decreases j - k,
        {
            assert(ns[k as int] == names@[k as int]@ && ns[j as int] == names@[j as int]@);
            if str_eq(names[k].as_str(), names[j].as_str()) {
                assert(repeated_at(ns, j as int));
                return Some(j);
            }
            k = k + 1;
        }
        j = j + 1;
    }
    None
}

/// What the destination is.
#[derive(PartialEq, Eq, Structural, Debug, Clone, Copy)]
pub enum DestKind {
    NotFound,
    Dir,
    File,
}

/// The destination to move to: a missing destination becomes a directory
/// when the first source is a directory or there are several sources, and
/// a file otherwise.
pub open spec fn resolved_dest(dest: DestKind, first_is_dir: bool, many: bool) -> DestKind {
    if dest == DestKind::NotFound && (first_is_dir || many) {
        DestKind::Dir
    } else if !many && dest == DestKind::NotFound {
        DestKind::File
    } else {
        dest
    }
}

/// Resolves the destination (see [`resolved_dest`]).
pub fn resolve_dest(dest: DestKind, first_is_dir: bool, many: bool) -> (r: DestKind)
    ensures
        r == resolved_dest(dest, first_is_dir, many),
{
    if dest == DestKind::NotFound && (first_is_dir || many) {
        DestKind::Dir
    } else if !many && dest == DestKind::NotFound {
        DestKind::File
    } else {
        dest
    }
}

/// The check of a move once the destination is resolved.
pub open spec fn move_check(many: bool, first_is_dir: bool, dest: DestKind) -> Result<(), MoveError> {
    if many && dest == DestKind::File {
        Err::<(), MoveError>(MoveError::ManyToFile)
    } else if !many && first_is_dir && dest != DestKind::Dir {
        Err::<(), MoveError>(MoveError::DirToNonDir)
    } else {
        Ok(())
    }
}

/// Refuses moving several sources to a file, and a directory to anything
/// but a directory.
pub fn check_move(many: bool, first_is_dir: bool, dest: DestKind) -> (r: Result<(), MoveError>)
    ensures
        r == move_check(many, first_is_dir, dest),
{
    if many && dest == DestKind::File {
        Err(MoveError::ManyToFile)
    } else if !many && first_is_dir && dest != DestKind::Dir {
        Err(MoveError::DirToNonDir)
    } else {
        Ok(())
    }
}

/// What is done with one source.
#[derive(PartialEq, Eq, Structural, Debug, Clone, Copy)]
pub enum SourceAction {
    /// Onto the destination file.
    FileToFile,
    /// Into the destination directory, under its own name.
    FileIntoDir,
    /// A directory into the destination directory.
    DirIntoDir,
    /// Nothing.
    Skip,
}

/// What is done with a source.
pub open spec fn source_action_of(source_is_dir: bool, dest: DestKind) -> SourceAction {
    if !source_is_dir && dest == DestKind::File {
        SourceAction::FileToFile
    } else if !source_is_dir && dest == DestKind::Dir {
        SourceAction::FileIntoDir
    } else if source_is_dir && dest == DestKind::Dir {
        SourceAction::DirIntoDir
    } else {
        SourceAction::Skip
    }
}

/// What is done with a source, given whether it is a directory and what the
/// destination is.
pub fn source_action(source_is_dir: bool, dest: DestKind) -> (r: SourceAction)
    ensures
        r == source_action_of(source_is_dir, dest),
{
    if !source_is_dir && dest == DestKind::File {
        SourceAction::FileToFile
    } else if !source_is_dir && dest == DestKind::Dir {
        SourceAction::FileIntoDir
    } else if source_is_dir && dest == DestKind::Dir {
        SourceAction::DirIntoDir
    } else {
        SourceAction::Skip
    }
}

/// A directory named without a trailing `/` goes into the destination as a
/// directory of its own; with a trailing `/` its contents go straight in.
pub fn keeps_dir_name(source: &str) -> (r: bool)
    ensures
        r == !(source@.len() > 0 && source@.last() == '/'),
{
    let n = source.unicode_len();
    !(n > 0 && source.get_char(n - 1) == '/')
}

/// What reading a file gave.
pub enum FileRead {
    Bytes(Vec<u8>),
    NotFound,
    Failed,
}

/// The outcome of comparing a source file with its destination.
#[derive(PartialEq, Eq, Structural, Debug, Clone, Copy)]
pub enum Comparison {
    /// Nothing stands in the way.
    Differ,
    /// The source could not be read.
    SourceUnreadable,
    /// The destination could not be read (for another reason than being missing).
    DestUnreadable,
    /// Source and destination hold the same bytes.
    Same,
}

/// The outcome of comparing a source file with its destination.
pub open spec fn comparison_of(source: FileRead, dest: Option<FileRead>) -> Comparison {
    match source {
        FileRead::Bytes(a) => match dest {
            None => Comparison::Differ,
            Some(FileRead::NotFound) => Comparison::Differ,
            Some(FileRead::Failed) => Comparison::DestUnreadable,
            Some(FileRead::Bytes(b)) => if a@ == b@ {
                Comparison::Same
            } else {
                Comparison::Differ
            },
        },
        _ => Comparison::SourceUnreadable,
    }
}

/// Compares a source file with its destination: `dest` is `None` when the
/// destination is a directory (then there is nothing to compare); a
/// missing destination is fine.
pub fn compare_files(source: &FileRead, dest: &Option<FileRead>) -> (r: Comparison)
    ensures
        r == comparison_of(*source, *dest),
{
    match source {
        FileRead::Bytes(a) => match dest {
            None => Comparison::Differ,
            Some(FileRead::NotFound) => Comparison::Differ,
            Some(FileRead::Failed) => Comparison::DestUnreadable,
            Some(FileRead::Bytes(b)) => {
                if same_bytes(a, b) {
                    Comparison::Same
                } else {
                    Comparison::Differ
                }
            },
        },
        _ => Comparison::SourceUnreadable,
    }
}

/// Whether two byte buffers are equal.
pub fn same_bytes(a: &Vec<u8>, b: &Vec<u8>) -> (r: bool)
    ensures
        r == (a@ == b@),
{
    if a.len() != b.len() {
        return false;
    }
    let mut i: usize = 0;
    while i < a.len()
        invariant
            a@.len() == b@.len(),
            i <= a@.len(),
            forall|j: int| 0 <= j < i ==> a@[j] == b@[j],
        decreases a@.len() - i,
    {
        if a[i] != b[i] {
            return false;
        }
        i = i + 1;
    }
    assert(a@ =~= b@);
    true
}

/// Whether a move goes ahead.
pub open spec fn move_allowed_of(answer: Option<bool>, overwrite: bool, dest_exists: bool) -> bool {
    (match answer {
        Some(a) => a,
        None => overwrite,
    } || !dest_exists)
}

/// Whether a move goes ahead: when asked, the answer decides whether an
/// existing destination is overwritten, otherwise the `overwrite` switch
/// does; a missing destination is always fine.
pub fn move_allowed(answer: Option<bool>, overwrite: bool, dest_exists: bool) -> (r: bool)
    ensures
        r == move_allowed_of(answer, overwrite, dest_exists),
{
    let ow = match answer {
        Some(a) => a,
        None => overwrite,
    };
    ow || !dest_exists
}

/// How a file is moved.
#[derive(PartialEq, Eq, Structural, Debug, Clone, Copy)]
pub enum Transfer {
    /// Renamed in place: source and destination are on the same device.
    Rename,
    /// Copied, then the source removed: they are on different devices.
    CopyThenRemove,
}

/// How a file is moved between two devices.
pub open spec fn transfer_of(source_dev: u64, dest_dev: u64) -> Transfer {
    if source_dev == dest_dev {
        Transfer::Rename
    } else {
        Transfer::CopyThenRemove
    }
}

/// Renames on the same device, copies and removes across devices.
pub fn transfer_kind(source_dev: u64, dest_dev: u64) -> (r: Transfer)
    ensures
        r == transfer_of(source_dev, dest_dev),
{
    if source_dev == dest_dev {
        Transfer::Rename
    } else {
        Transfer::CopyThenRemove
    }
}

/// What the copy tool knows of a source and its destination.
#[derive(PartialEq, Eq, Structural, Debug, Clone, Copy)]
pub struct CopyState {
    pub exists: bool,
    pub is_dir: bool,
    pub dest_exists: bool,
    pub dest_dir: bool,
}

/// The first check of a source in the copy tool.
#[derive(PartialEq, Eq, Structural, Debug, Clone, Copy)]
pub enum CopyStart {
    /// The source does not exist: skip it.
    Missing,
    /// Neither path can be resolved: skip it.
    NoMetadata,
    /// Go on; create the destination directory first when asked. What the
    /// destination is from now on is given.
    Proceed { create_dest_dir: bool, dest_exists: bool, dest_dir: bool },
}

/// The first check of a source in the copy tool.
pub open spec fn copy_start_of(s: CopyState, both_unresolved: bool) -> CopyStart {
    if !s.exists {
        CopyStart::Missing
    } else if both_unresolved {
        CopyStart::NoMetadata
    } else if s.is_dir && !s.dest_exists && !s.dest_dir {
        CopyStart::Proceed { create_dest_dir: true, dest_exists: true, dest_dir: true }
    } else if !s.is_dir && !s.dest_exists && !s.dest_dir {
        CopyStart::Proceed { create_dest_dir: false, dest_exists: false, dest_dir: false }
    } else if !s.is_dir && s.dest_exists && !s.dest_dir {
        CopyStart::Proceed { create_dest_dir: false, dest_exists: true, dest_dir: false }
    } else {
        CopyStart::Proceed { create_dest_dir: false, dest_exists: true, dest_dir: true }
    }
}

/// The first check of a source: missing sources and unresolvable pairs are
/// skipped; a directory copied to a missing destination makes that
/// destination a directory.
pub fn copy_start(s: CopyState, both_unresolved: bool) -> (r: CopyStart)
    ensures
        r == copy_start_of(s, both_unresolved),
{
    if !s.exists {
        CopyStart::Missing
    } else if both_unresolved {
        CopyStart::NoMetadata
    } else if s.is_dir && !s.dest_exists && !s.dest_dir {
        CopyStart::Proceed { create_dest_dir: true, dest_exists: true, dest_dir: true }
    } else if !s.is_dir && !s.dest_exists && !s.dest_dir {
        CopyStart::Proceed { create_dest_dir: false, dest_exists: false, dest_dir: false }
    } else if !s.is_dir && s.dest_exists && !s.dest_dir {
        CopyStart::Proceed { create_dest_dir: false, dest_exists: true, dest_dir: false }
    } else {
        CopyStart::Proceed { create_dest_dir: false, dest_exists: true, dest_dir: true }
    }
}

/// Whether the copy tool compares contents.
pub open spec fn compares_contents_of(is_dir: bool, dest_exists: bool, dest_dir: bool) -> bool {
    (dest_exists && !is_dir && !dest_dir)
}

/// Whether the copy tool compares the contents: only a file onto an existing file.
pub fn compares_contents(is_dir: bool, dest_exists: bool, dest_dir: bool) -> (r: bool)
    ensures
        r == compares_contents_of(is_dir, dest_exists, dest_dir),
{
    dest_exists && !is_dir && !dest_dir
}

/// What the copy tool does with a source.
#[derive(PartialEq, Eq, Structural, Debug, Clone, Copy)]
pub enum CopyScenario {
    /// Source and destination hold the same bytes: refuse.
    Equal,
    /// A directory onto a file: refuse.
    DirToFile,
    /// A file to a new file: create it, then copy with overwriting.
    NewFile,
    /// A file onto a file.
    FileToFile,
    /// A directory into a directory, entry by entry.
    DirToDir,
    /// A file into a directory, under its own name.
    FileIntoDir,
    /// Anything else: copy to the destination as it is.
    Plain,
}

/// The scenario of a copy.
pub open spec fn copy_scenario_of(is_dir: bool, dest_exists: bool, dest_dir: bool, same_contents: bool) -> CopyScenario {
    if same_contents {
        CopyScenario::Equal
    } else if is_dir && dest_exists && !dest_dir {
        CopyScenario::DirToFile
    } else if !is_dir && !dest_exists && !dest_dir {
        CopyScenario::NewFile
    } else if !is_dir && dest_exists && !dest_dir {
        CopyScenario::FileToFile
    } else if is_dir && dest_exists && dest_dir {
        CopyScenario::DirToDir
    } else if !is_dir && dest_exists && dest_dir {
        CopyScenario::FileIntoDir
    } else {
        CopyScenario::Plain
    }
}

/// The scenario for a source, once the destination is known and, for a
/// file onto a file, whether the contents are the same.
pub fn copy_scenario(is_dir: bool, dest_exists: bool, dest_dir: bool, same_contents: bool) -> (r: CopyScenario)
    ensures
        r == copy_scenario_of(is_dir, dest_exists, dest_dir, same_contents),
{
    if same_contents {
        CopyScenario::Equal
    } else if is_dir && dest_exists && !dest_dir {
        CopyScenario::DirToFile
    } else if !is_dir && !dest_exists && !dest_dir {
        CopyScenario::NewFile
    } else if !is_dir && dest_exists && !dest_dir {
        CopyScenario::FileToFile
    } else if is_dir && dest_exists && dest_dir {
        CopyScenario::DirToDir
    } else if !is_dir && dest_exists && dest_dir {
        CopyScenario::FileIntoDir
    } else {
        CopyScenario::Plain
    }
}

/// Whether a copy may write.
pub open spec fn copy_allowed_of(overwrite: bool, dest_exists: bool) -> bool {
    (overwrite || !dest_exists)
}

/// Whether a copy may write: with overwriting, or when nothing is there yet.
pub fn copy_allowed(overwrite: bool, dest_exists: bool) -> (r: bool)
    ensures
        r == copy_allowed_of(overwrite, dest_exists),
{
    overwrite || !dest_exists
}

/// Resolving the destination changes only a missing one: an existing
/// destination keeps its kind, and a missing one becomes a directory exactly
/// when the first source is a directory or there are several sources, and a
/// file otherwise.
pub proof fn law_resolve_dest_keeps_existing(dest: DestKind, first_is_dir: bool, many: bool)
    ensures
        dest != DestKind::NotFound ==> resolved_dest(dest, first_is_dir, many) == dest,
        dest == DestKind::NotFound ==> resolved_dest(dest, first_is_dir, many) != DestKind::NotFound,
        dest == DestKind::NotFound ==> (resolved_dest(dest, first_is_dir, many) == DestKind::Dir <==> (
        first_is_dir || many)),
{
}

/// A move is refused exactly in two cases: several sources onto a file, and
/// a single directory onto something that is not a directory; both switches
/// `ask` and `overwrite` together are refused, either one alone is not.
pub proof fn law_move_refusals(many: bool, first_is_dir: bool, dest: DestKind, ask: bool, overwrite: bool)
    ensures
        (move_check(many, first_is_dir, dest) is Err) <==> ((many && dest == DestKind::File) || (!many
            && first_is_dir && dest != DestKind::Dir)),
        many && dest == DestKind::File ==> move_check(many, first_is_dir, dest) == Err::<(), MoveError>(
            MoveError::ManyToFile,
        ),
        !many && first_is_dir && dest != DestKind::Dir ==> move_check(many, first_is_dir, dest) == Err::<
            (),
            MoveError,
        >(MoveError::DirToNonDir),
        (switches_check(ask, overwrite) is Err) <==> (ask && overwrite),
{
}

/// A file goes onto a file destination and into a directory destination; a
/// directory goes only into a directory; nothing is done otherwise.
pub proof fn law_source_goes_by_kind(source_is_dir: bool, dest: DestKind)
    ensures
        !source_is_dir && dest == DestKind::File <==> source_action_of(source_is_dir, dest)
            == SourceAction::FileToFile,
        !source_is_dir && dest == DestKind::Dir <==> source_action_of(source_is_dir, dest)
            == SourceAction::FileIntoDir,
        source_is_dir && dest == DestKind::Dir <==> source_action_of(source_is_dir, dest)
            == SourceAction::DirIntoDir,
        source_is_dir ==> source_action_of(source_is_dir, dest) != SourceAction::FileToFile
            && source_action_of(source_is_dir, dest) != SourceAction::FileIntoDir,
{
}

/// Writing over something that is there needs permission, from the answer
/// when one was asked for and from `overwrite` otherwise; a missing
/// destination never does. The same holds for the copy tool, which has no
/// question.
pub proof fn law_overwriting_needs_permission(answer: Option<bool>, overwrite: bool, dest_exists: bool)
    ensures
        !dest_exists ==> move_allowed_of(answer, overwrite, dest_exists),
        dest_exists && answer is Some ==> move_allowed_of(answer, overwrite, dest_exists) == answer->Some_0,
        dest_exists && answer is None ==> move_allowed_of(answer, overwrite, dest_exists) == overwrite,
        !dest_exists ==> copy_allowed_of(overwrite, dest_exists),
        dest_exists ==> copy_allowed_of(overwrite, dest_exists) == overwrite,
{
}

/// A file is renamed in place exactly when both ends are on the same device.
pub proof fn law_rename_on_same_device(source_dev: u64, dest_dev: u64)
    ensures
        (transfer_of(source_dev, dest_dev) == Transfer::Rename) <==> source_dev == dest_dev,
        transfer_of(source_dev, source_dev) == Transfer::Rename,
{
}

/// Comparing finds the files the same exactly when both were read and hold
/// the same bytes; a source that cannot be read always stops the move; a
/// missing destination, or one that is a directory, never does.
pub proof fn law_comparison(source: FileRead, dest: Option<FileRead>, a: Vec<u8>)
    ensures
        (comparison_of(source, dest) == Comparison::Same) <==> (source is Bytes && dest is Some && dest->Some_0 is Bytes
            && source->Bytes_0@ == dest->Some_0->Bytes_0@),
        !(source is Bytes) ==> comparison_of(source, dest) == Comparison::SourceUnreadable,
        comparison_of(FileRead::Bytes(a), None) == Comparison::Differ,
        comparison_of(FileRead::Bytes(a), Some(FileRead::NotFound)) == Comparison::Differ,
        source is Bytes && dest == Some(FileRead::Failed) ==> comparison_of(source, dest)
            == Comparison::DestUnreadable,
{
}

/// The copy tool skips a missing source whatever the destination; once it
/// goes on, the destination it works with is a directory only if it exists,
/// it creates a directory only for a directory source whose destination is
/// missing, and a file source leaves the destination as it found it.
pub proof fn law_copy_start(s: CopyState, both_unresolved: bool)
    ensures
        !s.exists ==> copy_start_of(s, both_unresolved) == CopyStart::Missing,
        s.exists && both_unresolved ==> copy_start_of(s, both_unresolved) == CopyStart::NoMetadata,
        copy_start_of(s, both_unresolved) is Proceed ==> (copy_start_of(s, both_unresolved)->Proceed_dest_dir
            ==> copy_start_of(s, both_unresolved)->Proceed_dest_exists),
        copy_start_of(s, both_unresolved) is Proceed ==> (copy_start_of(s, both_unresolved)->Proceed_create_dest_dir
            <==> (s.is_dir && !s.dest_exists && !s.dest_dir)),
        s.exists && !both_unresolved && !s.is_dir && !s.dest_dir ==> copy_start_of(s, both_unresolved)
            == (CopyStart::Proceed { create_dest_dir: false, dest_exists: s.dest_exists, dest_dir: false }),
        s.exists && !both_unresolved && s.is_dir ==> copy_start_of(s, both_unresolved) is Proceed
            && copy_start_of(s, both_unresolved)->Proceed_dest_dir,
{
}

/// Same contents always stop a copy; otherwise a directory onto an existing
/// file is refused, a file to a missing destination makes a new file, a
/// file onto a file overwrites it, a file into a directory goes under its
/// own name, a directory into a directory goes entry by entry; only a file
/// onto an existing file has its contents compared.
pub proof fn law_copy_scenarios(is_dir: bool, dest_exists: bool, dest_dir: bool, same: bool)
    ensures
        same ==> copy_scenario_of(is_dir, dest_exists, dest_dir, same) == CopyScenario::Equal,
        !same && is_dir && dest_exists && !dest_dir ==> copy_scenario_of(is_dir, dest_exists, dest_dir, same)
            == CopyScenario::DirToFile,
        !same && !is_dir && !dest_exists && !dest_dir ==> copy_scenario_of(is_dir, dest_exists, dest_dir, same)
            == CopyScenario::NewFile,
        !same && !is_dir && dest_exists && !dest_dir ==> copy_scenario_of(is_dir, dest_exists, dest_dir, same)
            == CopyScenario::FileToFile,
        !same && !is_dir && dest_exists && dest_dir ==> copy_scenario_of(is_dir, dest_exists, dest_dir, same)
            == CopyScenario::FileIntoDir,
        !same && is_dir && dest_exists && dest_dir ==> copy_scenario_of(is_dir, dest_exists, dest_dir, same)
            == CopyScenario::DirToDir,
        compares_contents_of(is_dir, dest_exists, dest_dir) <==> (!is_dir && dest_exists && !dest_dir),
{
}

/// The last name is the destination and all the others are sources: there
/// must be at least one source, and there are several exactly when more
/// than one name comes before the destination.
pub proof fn law_sources_counted(n: int)
    ensures
        (sources_of(n) is Err) <==> n < 2,
        n >= 2 ==> sources_of(n) == Ok::<bool, MoveError>(n - 1 > 1),
{
}

} // verus!
