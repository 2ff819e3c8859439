use std::collections::HashMap;

use carrot_utils::editor::{EditAction, EditKey, LineEditor};
use carrot_utils::rush::{
    block_statuses, classify, exit, getinput, gt, is_super, report_failure, report_success,
    supercmd_do, supercmd_if, Builtin, CommandStatus, ExitStep, GtError, SyntaxError,
};
use carrot_utils::parse::IntErrorKind;

fn words(s: &str) -> Vec<String> {
    s.split_whitespace().map(|w| w.to_string()).collect()
}

fn commands(s: &str) -> Vec<Vec<String>> {
    getinput(&words(s))
}

#[test]
fn getinput_separates_super_commands() {
    assert_eq!(
        commands("af file then ad dir"),
        vec![words("af file"), words("then"), words("ad dir")]
    );
}

#[test]
fn getinput_keeps_a_plain_command_whole() {
    assert_eq!(commands("echo it works"), vec![words("echo it works")]);
    assert_eq!(commands(""), Vec::<Vec<String>>::new());
}

#[test]
fn getinput_super_commands_stand_alone() {
    assert_eq!(
        commands("if my_app do echo ok then then"),
        vec![words("if"), words("my_app"), words("do"), words("echo ok"), words("then"), words("then")]
    );
    assert_eq!(commands("then"), vec![words("then")]);
}

#[test]
fn grouping_keeps_every_word() {
    let ws = words("a b if c do d then e f");
    let flat: Vec<String> = getinput(&ws).into_iter().flatten().collect();
    assert_eq!(flat, ws);
}

#[test]
fn super_command_names() {
    assert!(is_super("then"));
    assert!(is_super("if"));
    assert!(is_super("do"));
    assert!(!is_super("end"));
    assert!(!is_super("Then"));
}

#[test]
fn builtin_names() {
    assert_eq!(classify("gt"), Builtin::Gt);
    assert_eq!(classify("help"), Builtin::Help);
    assert_eq!(classify("?"), Builtin::Help);
    assert_eq!(classify("exit"), Builtin::Exit);
    assert_eq!(classify("quit"), Builtin::Exit);
    assert_eq!(classify("bye"), Builtin::Exit);
    assert_eq!(classify("then"), Builtin::Then);
    assert_eq!(classify("if"), Builtin::If);
    assert_eq!(classify("do"), Builtin::Do);
    assert_eq!(classify("ls"), Builtin::Run);
}

fn success() -> CommandStatus {
    CommandStatus { code: Some(0), success: true, signal: None, core_dumped: false }
}

fn failure() -> CommandStatus {
    CommandStatus { code: Some(1), success: false, signal: None, core_dumped: false }
}

#[test]
fn statuses_are_recorded() {
    let mut st = HashMap::new();
    report_success(2, &mut st);
    report_failure(5, &mut st);
    assert_eq!(st.get(&2), Some(&success()));
    assert_eq!(st.get(&5), Some(&failure()));
    report_success(5, &mut st);
    assert_eq!(st.get(&5), Some(&success()));
    assert_eq!(st.len(), 2);
}

#[test]
fn gt_checks_its_arguments() {
    let mut st = HashMap::new();
    assert_eq!(gt(&words("gt"), 0, &mut st), Err(GtError::MissingPath));
    assert_eq!(st.get(&0), Some(&failure()));
    assert_eq!(gt(&words("gt a b"), 1, &mut st), Err(GtError::TooManyPaths));
    assert_eq!(st.get(&1), Some(&failure()));
    assert_eq!(gt(&words("gt /tmp"), 2, &mut st), Ok("/tmp".to_string()));
    assert_eq!(st.get(&2), None);
}

#[test]
fn exit_codes() {
    let mut st = HashMap::new();
    assert_eq!(exit(&words("exit"), 0, &mut st), ExitStep::Quit(0));
    assert_eq!(st.get(&0), Some(&failure()));
    assert_eq!(exit(&words("exit 3"), 1, &mut st), ExitStep::Quit(3));
    assert_eq!(st.get(&1), Some(&success()));
    assert_eq!(exit(&words("exit -2"), 2, &mut st), ExitStep::Quit(-2));
    assert_eq!(exit(&words("exit 1 2"), 3, &mut st), ExitStep::TooManyCodes);
    assert_eq!(st.get(&3), Some(&failure()));
    assert_eq!(exit(&words("exit x"), 4, &mut st), ExitStep::BadCode(IntErrorKind::InvalidDigit));
    assert_eq!(st.get(&4), Some(&failure()));
    assert_eq!(
        exit(&words("exit 99999999999"), 5, &mut st),
        ExitStep::BadCode(IntErrorKind::PosOverflow)
    );
}

#[test]
fn if_needs_a_do() {
    assert_eq!(supercmd_if(0, &commands("if ad x do echo y")), Ok(()));
    assert_eq!(supercmd_if(0, &commands("if a then b do c")), Ok(()));
    assert_eq!(supercmd_if(0, &commands("if ad x")), Err(SyntaxError::MissingDo));
    assert_eq!(supercmd_if(0, &commands("if a if b do c")), Err(SyntaxError::UnexpectedIf));
    // An "if" that closes the line has no "do" after it.
    assert_eq!(supercmd_if(1, &commands("a if")), Err(SyntaxError::MissingDo));
    assert_eq!(supercmd_if(0, &commands("if")), Err(SyntaxError::MissingDo));
}

#[test]
fn do_needs_an_if() {
    let cmds = commands("if ad x do echo y");
    assert_eq!(supercmd_do(2, &cmds), Ok(1));
    assert_eq!(supercmd_do(1, &commands("ad do")), Err(SyntaxError::MissingIf));
    assert_eq!(supercmd_do(2, &commands("do a do")), Err(SyntaxError::UnexpectedDo));
    assert_eq!(supercmd_do(3, &commands("if a then do")), Ok(1));
}

#[test]
fn block_statuses_reads_the_records() {
    let mut st = HashMap::new();
    report_success(1, &mut st);
    report_failure(2, &mut st);
    report_success(3, &mut st);
    assert_eq!(block_statuses(1, 4, &st), vec![true, false, true]);
    assert_eq!(block_statuses(2, 2, &st), Vec::<bool>::new());
    assert_eq!(block_statuses(3, 1, &st), Vec::<bool>::new());
}

fn press(e: &mut LineEditor, key: EditKey) -> EditAction {
    assert!(e.can_handle(key));
    e.handle(key)
}

#[test]
fn editor_types_and_moves() {
    let mut e = LineEditor::new(2);
    assert!(matches!(press(&mut e, EditKey::Char('a')), EditAction::Redraw));
    assert!(matches!(press(&mut e, EditKey::Char('b')), EditAction::Redraw));
    assert_eq!((e.input.as_str(), e.cursor), ("ab", 4));
    assert!(matches!(press(&mut e, EditKey::Left), EditAction::Redraw));
    assert!(matches!(press(&mut e, EditKey::Char('x')), EditAction::Redraw));
    assert_eq!((e.input.as_str(), e.cursor), ("axb", 4));
    assert!(matches!(press(&mut e, EditKey::Home), EditAction::Redraw));
    assert_eq!(e.cursor, 2);
    assert!(matches!(press(&mut e, EditKey::Left), EditAction::Bell));
    assert!(matches!(press(&mut e, EditKey::End), EditAction::Redraw));
    assert_eq!(e.cursor, 5);
    assert!(matches!(press(&mut e, EditKey::Backspace), EditAction::Redraw));
    assert_eq!((e.input.as_str(), e.cursor), ("ax", 4));
    // The cursor column is held against the line's length plus two.
    assert!(matches!(press(&mut e, EditKey::Right), EditAction::Bell));
    press(&mut e, EditKey::Home);
    assert!(matches!(press(&mut e, EditKey::Right), EditAction::Redraw));
    assert_eq!(e.cursor, 3);
    assert!(matches!(press(&mut e, EditKey::Other), EditAction::BellRedraw));
    assert!(matches!(press(&mut e, EditKey::Quit), EditAction::Quit));
}

#[test]
fn editor_backspace_inside_the_line() {
    let mut e = LineEditor::new(0);
    for c in "abc".chars() {
        press(&mut e, EditKey::Char(c));
    }
    press(&mut e, EditKey::Home);
    assert!(matches!(press(&mut e, EditKey::Backspace), EditAction::BellRedraw));
    press(&mut e, EditKey::Right);
    assert!(matches!(press(&mut e, EditKey::Backspace), EditAction::Redraw));
    assert_eq!((e.input.as_str(), e.cursor), ("bc", 0));
}

#[test]
fn editor_enter_gives_the_words() {
    let mut e = LineEditor::new(2);
    for c in "af file then  ad".chars() {
        press(&mut e, EditKey::Char(c));
    }
    match press(&mut e, EditKey::Enter) {
        EditAction::Done(ws) => assert_eq!(ws, words("af file then ad")),
        _ => panic!("the line is complete"),
    }
    assert_eq!(e.input, "af file then  ad\n");
}

#[test]
fn editor_backspace_undoes_typing() {
    let mut e = LineEditor::new(1);
    for c in "hello".chars() {
        press(&mut e, EditKey::Char(c));
    }
    press(&mut e, EditKey::Left);
    press(&mut e, EditKey::Left);
    let before = (e.input.clone(), e.cursor);
    press(&mut e, EditKey::Char('ł'));
    assert_eq!(e.input, "helłlo");
    press(&mut e, EditKey::Backspace);
    assert_eq!((e.input.clone(), e.cursor), before);
}

#[test]
fn editor_refuses_a_cut_inside_a_character() {
    let mut e = LineEditor::new(0);
    press(&mut e, EditKey::Char('ł'));
    // One column for the character, but two bytes in the line: the next
    // insertion would fall inside it.
    assert_eq!(e.cursor, 1);
    assert!(!e.can_handle(EditKey::Char('a')));
    assert!(e.can_handle(EditKey::Left));
}
