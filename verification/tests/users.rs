use carrot_utils::userutil::{
    add_user, add_user_at, apply_user_switch, root_users, update_user_at, check_new_name, check_passwords, check_user_exists,
    check_user_switch, copy_user, copy_users, current_user_rights, del_users, free_uid,
    given_switches, isthere, join_words, matching_users, not_permitted,
    request_points_to_current_user, same_words, settings_from, update_user, user_answers, whois,
    AddError, DefaultUserPref, LookupError, PasswordError, SwitchError, SwitchStep, User,
    UserSettings, UsersList,
};
use carrot_utils::parse::IntErrorKind;

fn strings(ws: &[&str]) -> Vec<String> {
    ws.iter().map(|w| w.to_string()).collect()
}

fn user(id: u32, name: &str) -> User {
    User {
        id,
        name: name.to_string(),
        description: String::new(),
        groups: vec![id],
        password: "x".to_string(),
        password_change_date: 10,
        password_expiration_date: 0,
        can_change_password: true,
        creation_date: 10,
        locked: false,
        lock_date: 0,
        profile_dir: format!("/home/{name}"),
        shell: "/bin/rush".to_string(),
    }
}

fn sample() -> Vec<User> {
    vec![user(0, "root"), user(1000, "alice"), user(1001, "bob")]
}

fn settings() -> UserSettings {
    settings_from(&DefaultUserPref::default())
}

fn names(users: &[User]) -> Vec<&str> {
    users.iter().map(|u| u.name.as_str()).collect()
}

#[test]
fn defaults_for_new_users() {
    let d = DefaultUserPref::default();
    assert_eq!((d.minimal_uid, d.minimal_gid), (1000, 1000));
    assert_eq!((d.password_minimum_len, d.password_maximum_len), (8, 0));
    assert!(d.check_capitalisation && d.check_numbers && !d.check_special_chars);
    assert!(d.can_change_password && !d.locked && d.create_profile);
    assert_eq!(d.default_profile_dir, "/etc/default_profile/");
    assert_eq!(d.profile_dir, "/home/");
    assert_eq!(d.shell, "/bin/rush");
}

#[test]
fn a_fresh_system_has_root() {
    let l = UsersList::default();
    assert_eq!(l.users.len(), 1);
    let root = &l.users[0];
    assert_eq!((root.id, root.name.as_str(), root.groups.clone()), (0, "root", vec![0]));
    assert_eq!(root.profile_dir, "/root/");
    assert_eq!(root.shell, "/bin/rush");
    assert!(root.can_change_password && !root.locked);
    // The dates are stamped with the current time.
    assert!(root.creation_date > 1_600_000_000);
    assert!(root.password_change_date > 1_600_000_000);
}

#[test]
fn users_answer_to_name_and_id() {
    let us = sample();
    assert!(user_answers(&us[1], "alice"));
    assert!(user_answers(&us[1], "1000"));
    assert!(!user_answers(&us[1], "01000"));
    assert!(isthere("bob", &us));
    assert!(isthere("0", &us));
    assert!(!isthere("carol", &us));
    assert!(!isthere("", &us));
}

#[test]
fn copies_are_equal() {
    let us = sample();
    let c = copy_user(&us[2]);
    assert_eq!(format!("{c:?}"), format!("{:?}", us[2]));
    let all = copy_users(&us);
    assert_eq!(format!("{all:?}"), format!("{us:?}"));
}

#[test]
fn rights_of_the_running_user() {
    let mut us = sample();
    us[2].can_change_password = false;
    assert_eq!(current_user_rights(true, &us, 1001), (true, String::new()));
    assert_eq!(current_user_rights(false, &us, 1000), (true, "alice".to_string()));
    assert_eq!(current_user_rights(false, &us, 1001), (false, "bob".to_string()));
    assert_eq!(current_user_rights(false, &us, 7), (false, String::new()));
}

#[test]
fn requests_that_name_the_running_user() {
    assert!(request_points_to_current_user("1000", 1000, "alice"));
    assert!(request_points_to_current_user("alice", 1000, "alice"));
    assert!(!request_points_to_current_user("1001", 1000, "alice"));
    assert!(!request_points_to_current_user("bob", 1000, "alice"));
}

#[test]
fn who_may_do_what() {
    let none: Vec<String> = vec![];
    assert!(!not_permitted(true, "add", false, false, &none));
    assert!(not_permitted(false, "add", true, true, &none));
    assert!(not_permitted(false, "del", true, true, &none));
    assert!(!not_permitted(false, "update", true, true, &strings(&["pass"])));
    assert!(not_permitted(false, "update", true, true, &strings(&["shell"])));
    assert!(not_permitted(false, "update", true, true, &strings(&["pass", "shell"])));
    assert!(not_permitted(false, "update", false, true, &strings(&["pass"])));
    assert!(not_permitted(false, "update", true, false, &strings(&["pass"])));
    assert!(!not_permitted(false, "list", false, true, &none));
    assert!(not_permitted(false, "list", false, false, &none));
    assert!(!not_permitted(false, "whois", false, false, &none));
}

#[test]
fn settings_start_from_the_defaults() {
    let st = settings();
    assert_eq!(st.id, 1000);
    assert!(st.name.is_empty() && st.password.is_empty() && st.description.is_empty());
    assert_eq!(st.profile_dir, "/home/");
    assert_eq!(st.shell, "/bin/rush");
    assert!(st.create_profile && !st.delete_profile && st.can_change_password && !st.locked);
}

#[test]
fn switch_checks() {
    assert_eq!(check_user_switch("add", "id", "1002"), Ok(()));
    assert_eq!(check_user_switch("add", "id", ""), Err(SwitchError::NeedsValue));
    assert_eq!(check_user_switch("add", "p", "1"), Err(SwitchError::TakesNoValue));
    assert_eq!(check_user_switch("list", "shell", "/bin/sh"), Err(SwitchError::NotForAction));
    assert_eq!(check_user_switch("add", "name", "x"), Err(SwitchError::NotForAction));
    assert_eq!(check_user_switch("update", "name", "x"), Ok(()));
    assert_eq!(check_user_switch("update", "p", ""), Err(SwitchError::NotForAction));
    assert_eq!(check_user_switch("add", "d", ""), Err(SwitchError::NotForAction));
    assert_eq!(check_user_switch("del", "d", ""), Ok(()));
    assert_eq!(check_user_switch("list", "unknown", ""), Ok(()));
}

#[test]
fn switches_change_the_settings() {
    let mut st = settings();
    assert_eq!(apply_user_switch(&mut st, "id", "1500"), Ok(SwitchStep::Applied));
    assert_eq!(st.id, 1500);
    assert_eq!(apply_user_switch(&mut st, "id", "-1"), Err(SwitchError::BadId(IntErrorKind::InvalidDigit)));
    assert_eq!(st.id, 1500);
    assert_eq!(apply_user_switch(&mut st, "desc", "Alice A."), Ok(SwitchStep::Applied));
    assert_eq!(st.description, "Alice A.");
    assert_eq!(apply_user_switch(&mut st, "pass", ""), Ok(SwitchStep::AskPassword));
    assert_eq!(apply_user_switch(&mut st, "pass", "secret"), Ok(SwitchStep::PasswordGiven));
    assert_eq!(apply_user_switch(&mut st, "expire", "1700000000"), Ok(SwitchStep::Applied));
    assert_eq!(st.password_expiration_date, 1_700_000_000);
    assert_eq!(apply_user_switch(&mut st, "expire", "soon"), Err(SwitchError::BadExpire(IntErrorKind::InvalidDigit)));
    assert_eq!(apply_user_switch(&mut st, "chpass", "false"), Ok(SwitchStep::Applied));
    assert!(!st.can_change_password);
    assert_eq!(apply_user_switch(&mut st, "chpass", "no"), Err(SwitchError::BadChpass));
    assert_eq!(apply_user_switch(&mut st, "lock", "true"), Ok(SwitchStep::Applied));
    assert!(st.locked);
    assert_eq!(apply_user_switch(&mut st, "lock", "1"), Err(SwitchError::BadLock));
    assert_eq!(apply_user_switch(&mut st, "lockdate", "-5"), Ok(SwitchStep::Applied));
    assert_eq!(st.lock_date, -5);
    assert_eq!(apply_user_switch(&mut st, "lockdate", ""), Err(SwitchError::BadLockDate(IntErrorKind::Empty)));
    assert_eq!(apply_user_switch(&mut st, "profile", "/srv/a"), Ok(SwitchStep::Applied));
    assert_eq!(st.profile_dir, "/srv/a");
    assert_eq!(apply_user_switch(&mut st, "shell", "/bin/sh"), Ok(SwitchStep::Applied));
    assert_eq!(st.shell, "/bin/sh");
    assert_eq!(apply_user_switch(&mut st, "P", ""), Ok(SwitchStep::Applied));
    assert!(!st.create_profile);
    assert_eq!(apply_user_switch(&mut st, "p", ""), Ok(SwitchStep::Applied));
    assert!(st.create_profile);
    assert_eq!(apply_user_switch(&mut st, "d", ""), Ok(SwitchStep::Applied));
    assert!(st.delete_profile);
    assert_eq!(apply_user_switch(&mut st, "name", "al"), Ok(SwitchStep::Applied));
    assert_eq!(st.name, "al");
    assert_eq!(apply_user_switch(&mut st, "colour", "red"), Ok(SwitchStep::Unknown));
}

#[test]
fn passwords_typed_twice() {
    assert_eq!(join_words(&strings(&["correct", "horse"])), "correct horse");
    assert_eq!(join_words(&strings(&[])), "");
    assert!(same_words(&strings(&["a", "b"]), &strings(&["a", "b"])));
    assert!(!same_words(&strings(&["a", "b"]), &strings(&["a b"])));
    let p = strings(&["correct", "horse"]);
    assert_eq!(check_passwords(&p, &p, 8, 0), Ok("correct horse".to_string()));
    assert_eq!(check_passwords(&strings(&["short"]), &strings(&["short"]), 8, 0), Err(PasswordError::TooShort));
    // The bounds are off by one: seven characters pass a minimum of eight.
    assert_eq!(check_passwords(&strings(&["seven77"]), &strings(&["seven77"]), 8, 0), Ok("seven77".to_string()));
    assert_eq!(check_passwords(&p, &p, 0, 5), Err(PasswordError::TooLong));
    assert_eq!(check_passwords(&p, &strings(&["correct", "house"]), 8, 0), Err(PasswordError::Mismatch));
}

#[test]
fn names_of_new_users() {
    let us = sample();
    assert_eq!(check_new_name("carol", &us), Ok(()));
    assert_eq!(check_new_name("alice", &us), Err(AddError::NameTaken));
    assert_eq!(check_new_name("1234", &us), Err(AddError::IdAsName));
    assert_eq!(check_new_name("-5", &us), Err(AddError::IdAsName));
}

#[test]
fn ids_of_new_users() {
    let us = sample();
    assert_eq!(free_uid(1000, &us, false), Ok(1002));
    assert_eq!(free_uid(5, &us, false), Ok(5));
    assert_eq!(free_uid(1001, &us, true), Err(AddError::IdTaken(1001)));
    assert_eq!(free_uid(1003, &us, true), Ok(1003));
}

#[test]
fn adding_a_user() {
    let us = sample();
    let mut st = settings();
    apply_user_switch(&mut st, "desc", "Carol").unwrap();
    let after = add_user(&us, &st, 1002, "carol");
    assert_eq!(names(&after), vec!["root", "alice", "bob", "carol"]);
    let carol = &after[3];
    assert_eq!(carol.id, 1002);
    assert_eq!(carol.description, "Carol");
    assert!(carol.groups.is_empty());
    assert_eq!(carol.profile_dir, "/home//carol");
    assert_eq!(carol.shell, "/bin/rush");
    assert!(carol.creation_date > 1_600_000_000);
    assert!(isthere("carol", &after));
    assert!(isthere("1002", &after));
}

#[test]
fn lookups_before_delete_or_update() {
    let us = sample();
    assert_eq!(check_user_exists("bob", 1000, &us), Ok(()));
    assert_eq!(check_user_exists("carol", 1000, &us), Err(LookupError::NoSuchName));
    // A numeric request is checked against the ID from the settings.
    assert_eq!(check_user_exists("1001", 1000, &us), Ok(()));
    assert_eq!(check_user_exists("1001", 4242, &us), Err(LookupError::NoSuchId));
}

#[test]
fn deleting_users() {
    let mut us = sample();
    us.push(user(1001, "bobby"));
    let after = del_users(&us, "bob");
    assert_eq!(names(&after), vec!["root", "alice", "bobby"]);
    let after = del_users(&us, "1001");
    assert_eq!(names(&after), vec!["root", "alice"]);
    assert!(!isthere("1001", &after));
    let after = del_users(&us, "nobody");
    assert_eq!(names(&after), vec!["root", "alice", "bob", "bobby"]);
}

#[test]
fn delete_undoes_add() {
    let us = sample();
    assert_eq!(check_new_name("carol", &us), Ok(()));
    let added = add_user(&us, &settings(), 1002, "carol");
    let back = del_users(&added, "carol");
    assert_eq!(format!("{back:?}"), format!("{us:?}"));
}

#[test]
fn switches_given_to_an_update() {
    let g = given_switches(&strings(&["shell", "lock", "x"]));
    assert!(g.shell && g.lock);
    assert!(!g.id && !g.name && !g.desc && !g.pass && !g.expire && !g.chpass && !g.lockdate && !g.profile);
}

#[test]
fn updating_a_user() {
    let us = sample();
    let mut st = settings();
    apply_user_switch(&mut st, "shell", "/bin/sh").unwrap();
    apply_user_switch(&mut st, "desc", "ignored").unwrap();
    let g = given_switches(&strings(&["shell"]));
    let after = update_user(&us, "alice", &st, &g).unwrap();
    assert_eq!(names(&after), vec!["root", "bob", "alice"]);
    let alice = &after[2];
    assert_eq!(alice.shell, "/bin/sh");
    assert_eq!(alice.description, "");
    assert_eq!(alice.id, 1000);
    assert_eq!(alice.password_change_date, 10);
    assert!(update_user(&us, "carol", &st, &g).is_none());
}

#[test]
fn a_new_password_is_dated() {
    let us = sample();
    let mut st = settings();
    st.password = "hash".to_string();
    let g = given_switches(&strings(&["pass"]));
    let after = update_user(&us, "1001", &st, &g).unwrap();
    let bob = &after[2];
    assert_eq!(bob.password, "hash");
    assert!(bob.password_change_date > 1_600_000_000);
}

#[test]
fn listing_and_whois() {
    let mut us = sample();
    us.push(user(7, "1000"));
    assert_eq!(matching_users(&us, "1000"), vec![1, 3]);
    assert_eq!(matching_users(&us, "bob"), vec![2]);
    // whois reads a numeric request as an ID only.
    assert_eq!(whois(&us, "1000"), vec![1]);
    assert_eq!(whois(&us, "bob"), vec![2]);
    assert_eq!(whois(&us, "zed"), Vec::<usize>::new());
}

#[test]
fn root_users_with_given_dates() {
    let l = root_users(111, 222);
    assert_eq!(l.users.len(), 1);
    let root = &l.users[0];
    assert_eq!((root.password_change_date, root.creation_date), (111, 222));
    assert_eq!((root.id, root.name.as_str(), root.profile_dir.as_str()), (0, "root", "/root/"));
}

#[test]
fn adding_a_user_at_given_dates() {
    let us = sample();
    let after = add_user_at(&us, &settings(), 1002, "carol", 5, 6);
    assert_eq!(names(&after), vec!["root", "alice", "bob", "carol"]);
    assert_eq!((after[3].password_change_date, after[3].creation_date), (5, 6));
    assert_eq!(after[3].profile_dir, "/home//carol");
}

#[test]
fn updating_a_user_at_a_given_time() {
    let us = sample();
    let mut st = settings();
    st.password = "hash".to_string();
    let g = given_switches(&strings(&["pass"]));
    let after = update_user_at(&us, "bob", &st, &g, 77).unwrap();
    assert_eq!(names(&after), vec!["root", "alice", "bob"]);
    assert_eq!((after[2].password.as_str(), after[2].password_change_date), ("hash", 77));
    let g = given_switches(&strings(&["shell"]));
    let after = update_user_at(&us, "bob", &st, &g, 77).unwrap();
    assert_eq!((after[2].password.as_str(), after[2].password_change_date), ("x", 10));
    assert!(update_user_at(&us, "carol", &st, &g, 77).is_none());
}
