use carrot_utils::confirm::{ask_outcome, line_answer, read_answer, Answer};
use carrot_utils::parse::IntErrorKind;
use carrot_utils::rex::{desired_ids, first_index, starts_with_dash, switches_come_first, Rex, RexError};
use carrot_utils::wipe::{
    bytes_to_write, fill_byte, initial_settings, parselen, wipe_switch, WipeAction, WipeError,
    WipeSettings,
};

fn strings(ws: &[&str]) -> Vec<String> {
    ws.iter().map(|w| w.to_string()).collect()
}

#[test]
fn reading_answers() {
    assert_eq!(read_answer("y"), Answer::Yes);
    assert_eq!(read_answer(" YES \n"), Answer::Yes);
    assert_eq!(read_answer("Yes"), Answer::Yes);
    assert_eq!(read_answer("n"), Answer::No);
    assert_eq!(read_answer("No"), Answer::No);
    assert_eq!(read_answer("maybe"), Answer::Unclear);
    assert_eq!(read_answer("ye"), Answer::Unclear);
    assert_eq!(read_answer(""), Answer::Unclear);
}

#[test]
fn lowercase_is_unicode_aware() {
    // The answer goes through `to_lowercase`: a word that only matches after
    // lowercasing is understood.
    assert_eq!(read_answer("NO"), Answer::No);
    assert_eq!(read_answer("\u{130}"), Answer::Unclear);
}

#[test]
fn outcome_of_a_reply() {
    let o = ask_outcome(&strings(&["y"]));
    assert!(!o.ask_again_first && !o.ask_again_after && o.confirmed);
    assert_eq!(o.answer, Answer::Yes);
    let o = ask_outcome(&strings(&["yes", "please"]));
    assert!(o.ask_again_first && o.confirmed);
    let o = ask_outcome(&strings(&["no"]));
    assert!(!o.confirmed && !o.ask_again_after);
    let o = ask_outcome(&strings(&["what"]));
    assert!(!o.confirmed && o.ask_again_after);
    assert_eq!(o.answer, Answer::Unclear);
}

#[test]
fn whole_line_answers() {
    assert_eq!(line_answer("y\n"), Answer::Yes);
    assert_eq!(line_answer("Y\n"), Answer::Yes);
    assert_eq!(line_answer("N\n"), Answer::No);
    assert_eq!(line_answer("y"), Answer::Unclear);
    assert_eq!(line_answer("yes\n"), Answer::Unclear);
}

#[test]
fn wiping_settings() {
    let st = initial_settings();
    assert_eq!(st, WipeSettings { confirmed: true, random: true, length: None, verbose: false });
    let (st, act) = wipe_switch(st, "z", "", 0).unwrap();
    assert!(!st.random);
    assert_eq!(act, WipeAction::Continue);
    let (st, _) = wipe_switch(st, "random", "", 1).unwrap();
    assert!(st.random);
    let (st, _) = wipe_switch(st, "len", "4096", 2).unwrap();
    assert_eq!(st.length, Some(4096));
    let (st, _) = wipe_switch(st, "v", "anything", 3).unwrap();
    assert!(st.verbose);
    let (st2, act) = wipe_switch(st, "ask", "", 4).unwrap();
    assert_eq!(act, WipeAction::AskAbout(4));
    assert_eq!(st2, st);
}

#[test]
fn wiping_switch_errors() {
    let st = initial_settings();
    assert_eq!(wipe_switch(st, "q", "", 0), Err(WipeError::UnknownSwitch(0)));
    assert_eq!(wipe_switch(st, "a", "x", 1), Err(WipeError::ValueNotAccepted(1)));
    assert_eq!(wipe_switch(st, "zero", "1", 2), Err(WipeError::ValueNotAccepted(2)));
    assert_eq!(wipe_switch(st, "l", "", 3), Err(WipeError::ValueNeeded(3)));
    assert_eq!(wipe_switch(st, "l", "12k", 4), Err(WipeError::BadLength(4, IntErrorKind::InvalidDigit)));
}

#[test]
fn wiping_lengths_and_bytes() {
    assert_eq!(parselen("100"), Ok(100));
    assert_eq!(parselen("-1"), Err(IntErrorKind::InvalidDigit));
    assert_eq!(parselen(""), Err(IntErrorKind::Empty));
    let st = initial_settings();
    assert_eq!(bytes_to_write(&st, 77), 77);
    let (st, _) = wipe_switch(st, "len", "5", 0).unwrap();
    assert_eq!(bytes_to_write(&st, 77), 5);
    assert_eq!(fill_byte(false), b'0');
    // Random bytes differ from run to run; a long run is not all zeros.
    let drawn: Vec<u8> = (0..64).map(|_| fill_byte(true)).collect();
    assert!(drawn.iter().any(|b| *b != b'0'));
}

#[test]
fn switches_before_the_command() {
    assert!(starts_with_dash("-u=5"));
    assert!(!starts_with_dash("page"));
    assert!(!starts_with_dash(""));
    let args = strings(&["rex", "-u=1001", "-g=1002", "page", "-x"]);
    assert_eq!(first_index(&args, false), 3);
    assert_eq!(first_index(&args, true), 1);
    assert!(switches_come_first(&args));
    let args = strings(&["rex", "page", "/private", "-u=1001"]);
    assert_eq!(first_index(&args, false), 1);
    assert_eq!(first_index(&args, true), 3);
    assert!(!switches_come_first(&args));
    let args = strings(&["rex", "-u=1"]);
    assert_eq!(first_index(&args, false), 0);
    assert!(!switches_come_first(&args));
}

#[test]
fn ids_to_run_as() {
    let swcs = strings(&["u", "g"]);
    let vals = strings(&["1001", "1002"]);
    assert_eq!(desired_ids(&swcs, &vals, true), Ok((1001, 1002)));
    assert_eq!(desired_ids(&swcs, &vals, false), Ok((0, 0)));
    assert_eq!(desired_ids(&strings(&["both", "user"]), &strings(&["7", "8"]), true), Ok((8, 7)));
    assert_eq!(desired_ids(&strings(&["group"]), &strings(&["5"]), true), Ok((0, 5)));
    assert_eq!(desired_ids(&strings(&["u", "x"]), &strings(&["1", "2"]), true), Err(RexError::UnknownSwitch(1)));
    assert_eq!(
        desired_ids(&strings(&["b"]), &strings(&[""]), true),
        Err(RexError::BadNumber(0, IntErrorKind::Empty))
    );
}

#[test]
fn default_configuration() {
    let r = Rex::default();
    assert!(r.allow_users.is_empty());
    assert_eq!(r.allow_groups, vec!["admin".to_string()]);
    assert_eq!(r.allow_users_nopass, vec!["root".to_string()]);
    assert!(r.allow_groups_nopass.is_empty() && r.deny_users.is_empty() && r.deny_groups.is_empty());
    assert!(r.allow_cmd.is_empty() && r.allow_cmd_nopass.is_empty() && r.deny_cmd.is_empty());
}
