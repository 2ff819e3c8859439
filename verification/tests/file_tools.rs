use carrot_utils::div::is_on_other_side;
use carrot_utils::fields::{check_fields, field_label, file_kind_name, is_known_field, parse_fields, perm_digits};
use carrot_utils::fileops::{
    check_move, compare_files, compares_contents, copy_allowed, copy_scenario, copy_start,
    first_repeated, keeps_dir_name, many_sources, move_allowed, resolve_dest, same_bytes,
    source_action, switches_compatible, transfer_kind, Comparison, CopyScenario, CopyStart, CopyState, DestKind,
    FileRead, MoveError, SourceAction, Transfer,
};
use carrot_utils::list::{colorprint, showdir, str_lt, EntryKind, ListStep};
use carrot_utils::own::{has_two_ids, owner_ids, OwnError};
use carrot_utils::parse::IntErrorKind;
use carrot_utils::perm::{checkmode, mode_bits, mode_text, ModeError, ModesTable};
use carrot_utils::switches::{any_switch, first_unknown, first_with_value, has_switch, is_one_of};

fn strings(ws: &[&str]) -> Vec<String> {
    ws.iter().map(|w| w.to_string()).collect()
}

#[test]
fn switch_sets() {
    assert!(is_one_of("v", &["v", "verbose"]));
    assert!(!is_one_of("x", &["v", "verbose"]));
    assert_eq!(first_unknown(&strings(&["v", "r", "x", "y"]), &["v", "r"]), Some(2));
    assert_eq!(first_unknown(&strings(&["v", "r"]), &["v", "r"]), None);
    assert_eq!(first_with_value(&strings(&["", "", "3"])), Some(2));
    assert_eq!(first_with_value(&strings(&["", ""])), None);
    assert!(any_switch(&strings(&["a", "rec"]), &["r", "rec"]));
    assert!(!any_switch(&strings(&["a"]), &["r", "rec"]));
    assert!(has_switch(&strings(&["id", "pass"]), "pass"));
    assert!(!has_switch(&strings(&["id"]), "pass"));
}

#[test]
fn other_side_of_a_comparison() {
    let lines = strings(&["a", "b"]);
    assert!(is_on_other_side(&lines, 0));
    assert!(is_on_other_side(&lines, 1));
    assert!(!is_on_other_side(&lines, 2));
}

#[test]
fn metadata_fields() {
    assert!(is_known_field("mtime"));
    assert!(!is_known_field("Name"));
    assert_eq!(parse_fields("NAME,Size"), Ok(strings(&["name", "size"])));
    assert_eq!(parse_fields("name,colour,size"), Err(1));
    assert_eq!(parse_fields(""), Err(0));
    assert_eq!(check_fields(strings(&["inode", "hlinks"])), Ok(strings(&["inode", "hlinks"])));
    assert_eq!(check_fields(strings(&["inode", "bogus"])), Err(1));
}

#[test]
fn metadata_type_and_permissions() {
    assert_eq!(file_kind_name(true, false, false, false, false, false, false), "Directory");
    assert_eq!(file_kind_name(false, true, false, false, false, false, false), "File");
    assert_eq!(file_kind_name(false, false, false, false, false, true, false), "Fifo");
    assert_eq!(file_kind_name(false, false, false, false, false, false, false), "Unknown");
    assert_eq!(perm_digits(0o100755), (0, 7, 5, 5));
    assert_eq!(perm_digits(0o41777), (1, 7, 7, 7));
}

#[test]
fn ownership_requests() {
    assert_eq!(owner_ids("1000,100"), Ok((Some(1000), Some(100))));
    assert_eq!(owner_ids("n, 5"), Ok((None, Some(5))));
    assert_eq!(owner_ids(" 7 ,n"), Ok((Some(7), None)));
    assert_eq!(owner_ids("1,2,3"), Err(OwnError::TooManyIds));
    assert_eq!(owner_ids("x,1"), Err(OwnError::BadUid(IntErrorKind::InvalidDigit)));
    assert_eq!(owner_ids("1,"), Err(OwnError::BadGid(IntErrorKind::Empty)));
    assert_eq!(owner_ids("1,99999999999"), Err(OwnError::BadGid(IntErrorKind::PosOverflow)));
    assert!(has_two_ids("1,2"));
    assert!(!has_two_ids("5"));
}

#[test]
fn permission_modes() {
    let asked = strings(&["7", "n", "5", "0"]);
    let m = checkmode(&asked, (0, 6, 4, 4), (7, 0, 5, 0)).unwrap();
    assert_eq!(m, ModesTable { additional: 0, user: 7, group: 4, other: 5 });
    let too_many = strings(&["7", "5", "5", "0", "1"]);
    assert_eq!(checkmode(&too_many, (0, 6, 4, 4), (7, 5, 5, 0)), Err(ModeError::TooManyModes));
    let keep_all = strings(&["n", "n", "n", "n"]);
    assert_eq!(
        checkmode(&keep_all, (1, 6, 4, 4), (7, 7, 7, 7)),
        Ok(ModesTable { additional: 1, user: 6, group: 4, other: 4 })
    );
}

#[test]
fn permission_mode_text_and_bits() {
    let m = ModesTable { additional: 0, user: 7, group: 5, other: 5 };
    assert_eq!(mode_text(&m), "0755");
    assert_eq!(mode_bits(&m), Ok(0o755));
    let sticky = ModesTable { additional: 1, user: 7, group: 5, other: 5 };
    assert_eq!(mode_bits(&sticky), Ok(0o1755));
    let odd = ModesTable { additional: 0, user: 8, group: 5, other: 5 };
    assert_eq!(mode_bits(&odd), Err(IntErrorKind::InvalidDigit));
}

#[test]
fn move_names_and_destinations() {
    assert_eq!(many_sources(1), Err(MoveError::TooFewNames));
    assert_eq!(switches_compatible(true, true), Err(MoveError::AskAndOverwrite));
    assert_eq!(switches_compatible(true, false), Ok(()));
    assert_eq!(many_sources(2), Ok(false));
    assert_eq!(many_sources(5), Ok(true));
    assert_eq!(first_repeated(&strings(&["a", "b", "a", "b"])), Some(2));
    assert_eq!(first_repeated(&strings(&["a", "b", "c"])), None);
    assert_eq!(resolve_dest(DestKind::NotFound, true, false), DestKind::Dir);
    assert_eq!(resolve_dest(DestKind::NotFound, false, true), DestKind::Dir);
    assert_eq!(resolve_dest(DestKind::NotFound, false, false), DestKind::File);
    assert_eq!(resolve_dest(DestKind::File, true, false), DestKind::File);
    assert_eq!(check_move(true, false, DestKind::File), Err(MoveError::ManyToFile));
    assert_eq!(check_move(false, true, DestKind::File), Err(MoveError::DirToNonDir));
    assert_eq!(check_move(false, true, DestKind::Dir), Ok(()));
}

#[test]
fn move_each_source() {
    assert_eq!(source_action(false, DestKind::File), SourceAction::FileToFile);
    assert_eq!(source_action(false, DestKind::Dir), SourceAction::FileIntoDir);
    assert_eq!(source_action(true, DestKind::Dir), SourceAction::DirIntoDir);
    assert_eq!(source_action(true, DestKind::File), SourceAction::Skip);
    assert!(keeps_dir_name("dir"));
    assert!(!keeps_dir_name("dir/"));
    assert!(keeps_dir_name(""));
    assert!(move_allowed(None, false, false));
    assert!(!move_allowed(None, false, true));
    assert!(move_allowed(None, true, true));
    assert!(!move_allowed(Some(false), true, true));
    assert!(move_allowed(Some(true), false, true));
    assert_eq!(transfer_kind(3, 3), Transfer::Rename);
    assert_eq!(transfer_kind(3, 4), Transfer::CopyThenRemove);
}

#[test]
fn comparing_files() {
    let a = FileRead::Bytes(vec![1, 2, 3]);
    assert_eq!(compare_files(&a, &Some(FileRead::Bytes(vec![1, 2, 3]))), Comparison::Same);
    assert_eq!(compare_files(&a, &Some(FileRead::Bytes(vec![1, 2]))), Comparison::Differ);
    assert_eq!(compare_files(&a, &Some(FileRead::NotFound)), Comparison::Differ);
    assert_eq!(compare_files(&a, &Some(FileRead::Failed)), Comparison::DestUnreadable);
    assert_eq!(compare_files(&a, &None), Comparison::Differ);
    assert_eq!(compare_files(&FileRead::Failed, &None), Comparison::SourceUnreadable);
    assert_eq!(compare_files(&FileRead::NotFound, &Some(FileRead::Failed)), Comparison::SourceUnreadable);
    assert!(same_bytes(&vec![], &vec![]));
    assert!(!same_bytes(&vec![1], &vec![2]));
}

#[test]
fn copy_decisions() {
    let missing = CopyState { exists: false, is_dir: false, dest_exists: true, dest_dir: false };
    assert_eq!(copy_start(missing, false), CopyStart::Missing);
    let file = CopyState { exists: true, is_dir: false, dest_exists: false, dest_dir: false };
    assert_eq!(copy_start(file, true), CopyStart::NoMetadata);
    assert_eq!(
        copy_start(file, false),
        CopyStart::Proceed { create_dest_dir: false, dest_exists: false, dest_dir: false }
    );
    let dir = CopyState { exists: true, is_dir: true, dest_exists: false, dest_dir: false };
    assert_eq!(
        copy_start(dir, false),
        CopyStart::Proceed { create_dest_dir: true, dest_exists: true, dest_dir: true }
    );
    let onto_file = CopyState { exists: true, is_dir: false, dest_exists: true, dest_dir: false };
    assert_eq!(
        copy_start(onto_file, false),
        CopyStart::Proceed { create_dest_dir: false, dest_exists: true, dest_dir: false }
    );
    assert!(compares_contents(false, true, false));
    assert!(!compares_contents(true, true, false));
    assert_eq!(copy_scenario(false, true, false, true), CopyScenario::Equal);
    assert_eq!(copy_scenario(true, true, false, false), CopyScenario::DirToFile);
    assert_eq!(copy_scenario(false, false, false, false), CopyScenario::NewFile);
    assert_eq!(copy_scenario(false, true, false, false), CopyScenario::FileToFile);
    assert_eq!(copy_scenario(true, true, true, false), CopyScenario::DirToDir);
    assert_eq!(copy_scenario(false, true, true, false), CopyScenario::FileIntoDir);
    assert_eq!(copy_scenario(true, false, true, false), CopyScenario::Plain);
    assert!(copy_allowed(true, true));
    assert!(copy_allowed(false, false));
    assert!(!copy_allowed(false, true));
}

#[test]
fn listing_lines() {
    assert_eq!(colorprint("notes", EntryKind::File, false), "notes");
    assert_eq!(colorprint("src", EntryKind::Dir, false), "src/");
    assert_eq!(colorprint("notes", EntryKind::File, true), "\x1b[1;37mnotes\x1b[0m");
    assert_eq!(colorprint("src", EntryKind::Dir, true), "\x1b[1;32msrc/\x1b[0m");
    assert_eq!(colorprint("ln", EntryKind::Symlink, true), "\x1b[1;34mln\x1b[0m");
    assert_eq!(colorprint("dev", EntryKind::Other, true), "\x1b[1;33mdev\x1b[0m");
}

#[test]
fn listing_order() {
    assert!(str_lt("B", "a"));
    assert!(str_lt("ab", "abc"));
    assert!(!str_lt("abc", "abc"));
    assert!(str_lt("", "a"));
    assert!(!str_lt("b", "a"));
}

#[test]
fn listing_walk_without_sorting() {
    let names = strings(&["b", ".hidden", "dir", "a"]);
    let is_dir = vec![false, false, true, false];
    let plan = showdir(&names, &is_dir, false, true, false);
    assert_eq!(
        plan.steps,
        vec![ListStep::Print(0), ListStep::Print(2), ListStep::Descend(2), ListStep::Print(3)]
    );
    assert!(plan.sorted.is_empty());
    let plan = showdir(&names, &is_dir, true, false, false);
    assert_eq!(
        plan.steps,
        vec![ListStep::Print(0), ListStep::Print(1), ListStep::Print(2), ListStep::Print(3)]
    );
}

#[test]
fn listing_sorted() {
    let names = strings(&["b", ".hidden", "dir", "a", "B"]);
    let is_dir = vec![false, true, true, false, false];
    let plan = showdir(&names, &is_dir, false, true, true);
    assert_eq!(plan.sorted, vec![4, 3, 0, 2]);
    // A directory's contents come right after its line.
    assert_eq!(
        plan.steps,
        vec![ListStep::Print(4), ListStep::Print(3), ListStep::Print(0), ListStep::Print(2), ListStep::Descend(2)]
    );
    let plan = showdir(&names, &is_dir, true, true, true);
    assert_eq!(plan.sorted, vec![1, 4, 3, 0, 2]);
    assert_eq!(
        plan.steps,
        vec![
            ListStep::Print(1),
            ListStep::Descend(1),
            ListStep::Print(4),
            ListStep::Print(3),
            ListStep::Print(0),
            ListStep::Print(2),
            ListStep::Descend(2),
        ]
    );
    let names = strings(&["b", "a"]);
    let plan = showdir(&names, &vec![false, true], false, true, true);
    assert_eq!(plan.steps, vec![ListStep::Print(1), ListStep::Descend(1), ListStep::Print(0)]);
}

#[test]
fn metadata_labels() {
    assert_eq!(field_label("usrown", false), "usrown");
    assert_eq!(field_label("usrown", true), "Owner (user)");
    assert_eq!(field_label("hlinks", true), "Hard links");
    assert_eq!(field_label("perms", true), "Permissions");
    assert_eq!(field_label("mtime", true), "Modified");
}
