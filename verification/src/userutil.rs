//! The user database: user records, the defaults for new users, who may do
//! what, the switches that describe a user, and adding, removing, updating
//! and finding users.

use vstd::prelude::*;
use crate::parse::{decimal, parse_bool, parse_i64, parse_int, parse_u32, u64_to_decimal, IntErrorKind};
use crate::switches::has_switch;
use crate::text::{push_str, str_eq};

verus! {

/// One user of the system.
#[derive(Debug)]
pub struct User {
    pub id: u32,
    pub name: String,
    pub description: String,
    pub groups: Vec<u32>,
    pub password: String,
    pub password_change_date: i64,
    pub password_expiration_date: i64,
    pub can_change_password: bool,
    pub creation_date: i64,
    pub locked: bool,
    pub lock_date: i64,
    pub profile_dir: String,
    pub shell: String,
}

/// A user as plain values.
pub struct UserModel {
    pub id: u32,
    pub name: Seq<char>,
    pub description: Seq<char>,
    pub groups: Seq<u32>,
    pub password: Seq<char>,
    pub password_change_date: i64,
    pub password_expiration_date: i64,
    pub can_change_password: bool,
    pub creation_date: i64,
    pub locked: bool,
    pub lock_date: i64,
    pub profile_dir: Seq<char>,
    pub shell: Seq<char>,
}

impl DeepView for User {
    type V = UserModel;

    open spec fn deep_view(&self) -> UserModel {
        UserModel {
            id: self.id,
            name: self.name@,
            description: self.description@,
            groups: self.groups@,
            password: self.password@,
            password_change_date: self.password_change_date,
            password_expiration_date: self.password_expiration_date,
            can_change_password: self.can_change_password,
            creation_date: self.creation_date,
            locked: self.locked,
            lock_date: self.lock_date,
            profile_dir: self.profile_dir@,
            shell: self.shell@,
        }
    }
}

/// The list of all users.
#[derive(Debug)]
pub struct UsersList {
    pub users: Vec<User>,
}

/// The settings that newly created users get.
#[derive(Debug)]
pub struct DefaultUserPref {
    pub minimal_uid: u32,
    pub minimal_gid: u32,
    pub password_minimum_len: u64,
    pub password_maximum_len: u64,
    pub check_capitalisation: bool,
    pub check_numbers: bool,
    pub check_special_chars: bool,
    pub can_change_password: bool,
    pub locked: bool,
    pub create_profile: bool,
    pub default_profile_dir: String,
    pub profile_dir: String,
    pub shell: String,
}

impl Default for DefaultUserPref {
    fn default() -> (d: Self)
        ensures
            d.minimal_uid == 1000,
            d.minimal_gid == 1000,
            d.password_minimum_len == 8,
            d.password_maximum_len == 0,
            d.check_capitalisation,
            d.check_numbers,
            !d.check_special_chars,
            d.can_change_password,
            !d.locked,
            d.create_profile,
            d.default_profile_dir@ == "/etc/default_profile/"@,
            d.profile_dir@ == "/home/"@,
            d.shell@ == "/bin/rush"@,
    {
        DefaultUserPref {
            minimal_uid: 1000,
            minimal_gid: 1000,
            password_minimum_len: 8,
            password_maximum_len: 0,
            check_capitalisation: true,
            check_numbers: true,
            check_special_chars: false,
            can_change_password: true,
            locked: false,
            create_profile: true,
            default_profile_dir: "/etc/default_profile/".to_owned(),
            profile_dir: "/home/".to_owned(),
            shell: "/bin/rush".to_owned(),
        }
    }
}

/// `chrono::Utc::now().timestamp()`: the current time in seconds since the
/// Unix epoch. It depends on the clock, so nothing is stated of it.
#[verifier::external_body]
fn utc_now_timestamp() -> i64 {
    chrono::offset::Utc::now().timestamp()
}

/// The users of a fresh system: `root` alone, whose password was changed
/// at `password_change_date` and who was created at `creation_date`.
pub fn root_users(password_change_date: i64, creation_date: i64) -> (l: UsersList)
    ensures
        l.users@.len() == 1,
        l.users@[0].id == 0,
        l.users@[0].name@ == "root"@,
        l.users@[0].groups@ == seq![0u32],
        l.users@[0].description@ == ""@,
        l.users@[0].password@ == ""@,
        l.users@[0].password_change_date == password_change_date,
        l.users@[0].password_expiration_date == 0,
        l.users@[0].can_change_password,
        l.users@[0].creation_date == creation_date,
        !l.users@[0].locked,
        l.users@[0].lock_date == 0,
        l.users@[0].profile_dir@ == "/root/"@,
        l.users@[0].shell@ == "/bin/rush"@,
{
    let root = User {
        id: 0,
        name: "root".to_owned(),
        groups: vec![0u32],
        description: "".to_owned(),
        password: "".to_owned(),
        password_change_date,
        password_expiration_date: 0,
        can_change_password: true,
        creation_date,
        locked: false,
        lock_date: 0,
        profile_dir: "/root/".to_owned(),
        shell: "/bin/rush".to_owned(),
    };
    UsersList { users: vec![root] }
}

impl Default for UsersList {
    /// The users of a fresh system (see [`root_users`]), stamped with the
    /// current time, read once for each date.
    fn default() -> (l: Self)
        ensures
            l.users@.len() == 1,
            l.users@[0].id == 0,
            l.users@[0].name@ == "root"@,
            l.users@[0].groups@ == seq![0u32],
            l.users@[0].description@ == ""@,
            l.users@[0].password@ == ""@,
            l.users@[0].password_expiration_date == 0,
            l.users@[0].can_change_password,
            !l.users@[0].locked,
            l.users@[0].lock_date == 0,
            l.users@[0].profile_dir@ == "/root/"@,
            l.users@[0].shell@ == "/bin/rush"@,
    {
        let password_change_date = utc_now_timestamp();
        let creation_date = utc_now_timestamp();
        root_users(password_change_date, creation_date)
    }
}

/// A copy of a user.
pub fn copy_user(u: &User) -> (r: User)
    ensures
        r.deep_view() == u.deep_view(),
{
    let groups = u.groups.clone();
    assert(groups@ =~= u.groups@);
    User {
        id: u.id,
        name: u.name.clone(),
        description: u.description.clone(),
        groups,
        password: u.password.clone(),
        password_change_date: u.password_change_date,
        password_expiration_date: u.password_expiration_date,
        can_change_password: u.can_change_password,
        creation_date: u.creation_date,
        locked: u.locked,
        lock_date: u.lock_date,
        profile_dir: u.profile_dir.clone(),
        shell: u.shell.clone(),
    }
}

/// A user answers to `request` by name or by ID written in decimal.
pub open spec fn answers_to(u: UserModel, request: Seq<char>) -> bool {
    u.name == request || decimal(u.id as nat) == request
}

/// Some user answers to `request`.
pub open spec fn some_user_answers(users: Seq<UserModel>, request: Seq<char>) -> bool {
    exists|i: int| 0 <= i < users.len() && answers_to(#[trigger] users[i], request)
}

/// Whether user `u` answers to `request`.
pub fn user_answers(u: &User, request: &str) -> (r: bool)
    ensures
        r == answers_to(u.deep_view(), request@),
{
    if str_eq(u.name.as_str(), request) {
        return true;
    }
    let id = u64_to_decimal(u.id as u64);
    str_eq(id.as_str(), request)
}

/// Whether a user answers to `request` by name or by ID.
pub fn isthere(request: &str, users_list: &Vec<User>) -> (r: bool)
    ensures
        r == some_user_answers(users_list.deep_view(), request@),
{
    let ghost us = users_list.deep_view();
    let mut i: usize = 0;
    while i < users_list.len()
        invariant
            i <= users_list@.len(),
            us == users_list.deep_view(),
            forall|j: int| 0 <= j < i ==> !answers_to(#[trigger] us[j], request@),
        decreases users_list@.len() - i,
    {
        if user_answers(&users_list[i], request) {
            assert(answers_to(us[i as int], request@));
            return true;
        }
        i = i + 1;
    }
    false
}

/// What the running user may do to itself: whether it may change its
/// password, and its name. The last user with the running user's ID counts.
pub open spec fn rights_of(users: Seq<UserModel>, uid: u32, k: int) -> (bool, Seq<char>)
    decreases k,
{
    if k <= 0 {
        (false, Seq::empty())
    } else if users[k - 1].id == uid {
        (users[k - 1].can_change_password, users[k - 1].name)
    } else {
        rights_of(users, uid, k - 1)
    }
}

/// The running user's rights (see [`rights_of`]); root may always change
/// passwords and has no name here.
pub fn current_user_rights(running_as_root: bool, users: &Vec<User>, current_uid: u32) -> (r: (bool, String))
    ensures
        running_as_root ==> r.0 && r.1@ == Seq::<char>::empty(),
        !running_as_root ==> (r.0, r.1@) == rights_of(users.deep_view(), current_uid, users@.len() as int),
{
    if running_as_root {
        return (true, String::new());
    }
    let ghost us = users.deep_view();
    let mut chpass = false;
    let mut name = String::new();
    let mut i: usize = 0;
    while i < users.len()
        invariant
            i <= users@.len(),
            us == users.deep_view(),
            (chpass, name@) == rights_of(us, current_uid, i as int),
        decreases users@.len() - i,
    {
        if users[i].id == current_uid {
            chpass = users[i].can_change_password;
            name = users[i].name.clone();
        }
        i = i + 1;
    }
    (chpass, name)
}

/// The request names the running user: by ID when it reads as a `u32`,
/// otherwise by name.
pub open spec fn points_to(request: Seq<char>, current_uid: u32, current_name: Seq<char>) -> bool {
    match parse_int(request, 0, u32::MAX as int) {
        Ok(v) => v == current_uid,
        Err(_) => request == current_name,
    }
}

/// Whether the request names the running user (see [`points_to`]).
pub fn request_points_to_current_user(request: &str, current_uid: u32, current_name: &str) -> (r: bool)
    ensures
        r == points_to(request@, current_uid, current_name@),
{
    match parse_u32(request) {
        Ok(v) => v == current_uid,
        Err(_) => str_eq(request, current_name),
    }
}

/// Who may do what: only root may add or delete users; others may update
/// only their own password (with `-pass` alone, when allowed to change it)
/// and list only themselves.
pub open spec fn forbidden(running_as_root: bool, action: Seq<char>, may_change_password: bool, points_to_self: bool, swcs: Seq<Seq<char>>) -> bool {
    !running_as_root && (action == "add"@ || action == "del"@ || (action == "update"@ && (
    !may_change_password || !points_to_self || swcs.len() > 1 || (swcs.len() == 1 && swcs[0]
        != "pass"@))) || (action == "list"@ && !points_to_self))
}

/// Whether the operation is refused (see [`forbidden`]).
pub fn not_permitted(running_as_root: bool, action: &str, may_change_password: bool, points_to_self: bool, swcs: &Vec<String>) -> (r: bool)
    ensures
        r == forbidden(running_as_root, action@, may_change_password, points_to_self, swcs.deep_view()),
{
    if running_as_root {
        return false;
    }
    if str_eq(action, "add") || str_eq(action, "del") {
        return true;
    }
    if str_eq(action, "update") {
        let only_pass_or_nothing = swcs.len() == 0 || (swcs.len() == 1 && str_eq(
            swcs[0].as_str(),
            "pass",
        ));
        assert(swcs.len() == 1 ==> swcs.deep_view()[0] == swcs@[0]@);
        if !may_change_password || !points_to_self || !only_pass_or_nothing {
            return true;
        }
        return false;
    }
    if str_eq(action, "list") {
        return !points_to_self;
    }
    false
}

/// What a new or updated user gets, as the switches leave it.
pub struct UserSettings {
    pub id: u32,
    pub name: String,
    pub description: String,
    pub password: String,
    pub password_expiration_date: i64,
    pub can_change_password: bool,
    pub locked: bool,
    pub create_profile: bool,
    pub delete_profile: bool,
    pub lock_date: i64,
    pub profile_dir: String,
    pub shell: String,
}

/// The settings before any switch: taken from the defaults for new users.
pub fn settings_from(pref: &DefaultUserPref) -> (s: UserSettings)
    ensures
        s.id == pref.minimal_uid,
        s.name@ == Seq::<char>::empty(),
        s.description@ == Seq::<char>::empty(),
        s.password@ == Seq::<char>::empty(),
        s.password_expiration_date == 0,
        s.can_change_password == pref.can_change_password,
        s.locked == pref.locked,
        s.create_profile == pref.create_profile,
        !s.delete_profile,
        s.lock_date == 0,
        s.profile_dir@ == pref.profile_dir@,
        s.shell@ == pref.shell@,
{
    UserSettings {
        id: pref.minimal_uid,
        name: String::new(),
        description: String::new(),
        password: String::new(),
        password_expiration_date: 0,
        can_change_password: pref.can_change_password,
        locked: pref.locked,
        create_profile: pref.create_profile,
        delete_profile: false,
        lock_date: 0,
        profile_dir: pref.profile_dir.clone(),
        shell: pref.shell.clone(),
    }
}

/// Why a switch is refused.
#[derive(PartialEq, Eq, Structural, Debug, Clone, Copy)]
pub enum SwitchError {
    /// The switch needs a value.
    NeedsValue,
    /// The switch takes no value.
    TakesNoValue,
    /// The action does not take this switch.
    NotForAction,
    /// The value of `-id` is not a `u32`.
    BadId(IntErrorKind),
    /// The value of `-expire` is not an `i64`.
    BadExpire(IntErrorKind),
    /// The value of `-chpass` is not `true` or `false`.
    BadChpass,
    /// The value of `-lock` is not `true` or `false`.
    BadLock,
    /// The value of `-lockdate` is not an `i64`.
    BadLockDate(IntErrorKind),
}

pub open spec fn valued_switch(s: Seq<char>) -> bool {
    s == "id"@ || s == "name"@ || s == "desc"@ || s == "expire"@ || s == "chpass"@ || s == "lock"@
        || s == "lockdate"@ || s == "profile"@ || s == "shell"@
}

pub open spec fn bare_switch(s: Seq<char>) -> bool {
    s == "p"@ || s == "P"@ || s == "d"@
}

pub open spec fn editing_switch(s: Seq<char>) -> bool {
    s == "id"@ || s == "desc"@ || s == "pass"@ || s == "expire"@ || s == "chpass"@ || s == "lock"@
        || s == "lockdate"@ || s == "profile"@ || s == "shell"@
}

pub open spec fn editing_action(a: Seq<char>) -> bool {
    a == "add"@ || a == "del"@ || a == "update"@
}

/// The checks made on switch `s` with value `v` for `action`, in order.
pub open spec fn switch_check(action: Seq<char>, s: Seq<char>, v: Seq<char>) -> Result<(), SwitchError> {
    if v.len() == 0 && valued_switch(s) {
        Err(SwitchError::NeedsValue)
    } else if v.len() != 0 && bare_switch(s) {
        Err(SwitchError::TakesNoValue)
    } else if !editing_action(action) && editing_switch(s) {
        Err(SwitchError::NotForAction)
    } else if (action != "update"@ && s == "name"@) || (action != "add"@ && (s == "p"@ || s == "P"@))
        || (action != "del"@ && s == "d"@) {
        Err(SwitchError::NotForAction)
    } else {
        Ok(())
    }
}

/// What applying a switch asks of the caller.
#[derive(PartialEq, Eq, Structural, Debug, Clone, Copy)]
pub enum SwitchStep {
    /// The switch is applied.
    Applied,
    /// `-pass` without a value: ask for the password twice.
    AskPassword,
    /// `-pass=value`: set that password, with a warning.
    PasswordGiven,
    /// The switch is unknown; it is ignored with a warning.
    Unknown,
}

/// The settings after switch `s` with value `v`, and what the caller does.
pub open spec fn switch_effect(st: UserSettingsModel, s: Seq<char>, v: Seq<char>) -> Result<(UserSettingsModel, SwitchStep), SwitchError> {
    if s == "id"@ {
        match parse_int(v, 0, u32::MAX as int) {
            Ok(x) => Ok((UserSettingsModel { id: x as u32, ..st }, SwitchStep::Applied)),
            Err(e) => Err(SwitchError::BadId(e)),
        }
    } else if s == "name"@ {
        Ok((UserSettingsModel { name: v, ..st }, SwitchStep::Applied))
    } else if s == "desc"@ {
        Ok((UserSettingsModel { description: v, ..st }, SwitchStep::Applied))
    } else if s == "pass"@ {
        if v.len() == 0 {
            Ok((st, SwitchStep::AskPassword))
        } else {
            Ok((st, SwitchStep::PasswordGiven))
        }
    } else if s == "expire"@ {
        match parse_int(v, i64::MIN as int, i64::MAX as int) {
            Ok(x) => Ok((UserSettingsModel { password_expiration_date: x as i64, ..st }, SwitchStep::Applied)),
            Err(e) => Err(SwitchError::BadExpire(e)),
        }
    } else if s == "chpass"@ {
        if v == "true"@ {
            Ok((UserSettingsModel { can_change_password: true, ..st }, SwitchStep::Applied))
        } else if v == "false"@ {
            Ok((UserSettingsModel { can_change_password: false, ..st }, SwitchStep::Applied))
        } else {
            Err(SwitchError::BadChpass)
        }
    } else if s == "lock"@ {
        if v == "true"@ {
            Ok((UserSettingsModel { locked: true, ..st }, SwitchStep::Applied))
        } else if v == "false"@ {
            Ok((UserSettingsModel { locked: false, ..st }, SwitchStep::Applied))
        } else {
            Err(SwitchError::BadLock)
        }
    } else if s == "lockdate"@ {
        match parse_int(v, i64::MIN as int, i64::MAX as int) {
            Ok(x) => Ok((UserSettingsModel { lock_date: x as i64, ..st }, SwitchStep::Applied)),
            Err(e) => Err(SwitchError::BadLockDate(e)),
        }
    } else if s == "profile"@ {
        Ok((UserSettingsModel { profile_dir: v, ..st }, SwitchStep::Applied))
    } else if s == "shell"@ {
        Ok((UserSettingsModel { shell: v, ..st }, SwitchStep::Applied))
    } else if s == "p"@ {
        Ok((UserSettingsModel { create_profile: true, ..st }, SwitchStep::Applied))
    } else if s == "P"@ {
        Ok((UserSettingsModel { create_profile: false, ..st }, SwitchStep::Applied))
    } else if s == "d"@ {
        Ok((UserSettingsModel { delete_profile: true, ..st }, SwitchStep::Applied))
    } else {
        Ok((st, SwitchStep::Unknown))
    }
}

/// The settings as plain values.
pub struct UserSettingsModel {
    pub id: u32,
    pub name: Seq<char>,
    pub description: Seq<char>,
    pub password: Seq<char>,
    pub password_expiration_date: i64,
    pub can_change_password: bool,
    pub locked: bool,
    pub create_profile: bool,
    pub delete_profile: bool,
    pub lock_date: i64,
    pub profile_dir: Seq<char>,
    pub shell: Seq<char>,
}

impl UserSettings {
    pub open spec fn model(&self) -> UserSettingsModel {
        UserSettingsModel {
            id: self.id,
            name: self.name@,
            description: self.description@,
            password: self.password@,
            password_expiration_date: self.password_expiration_date,
            can_change_password: self.can_change_password,
            locked: self.locked,
            create_profile: self.create_profile,
            delete_profile: self.delete_profile,
            lock_date: self.lock_date,
            profile_dir: self.profile_dir@,
            shell: self.shell@,
        }
    }
}

/// Checks switch `s` with value `v` for `action` (see [`switch_check`]).
pub fn check_user_switch(action: &str, s: &str, v: &str) -> (r: Result<(), SwitchError>)
    ensures
        r == switch_check(action@, s@, v@),
{
    let empty = v.unicode_len() == 0;
    let valued = str_eq(s, "id") || str_eq(s, "name") || str_eq(s, "desc") || str_eq(s, "expire")
        || str_eq(s, "chpass") || str_eq(s, "lock") || str_eq(s, "lockdate") || str_eq(s, "profile")
        || str_eq(s, "shell");
    if empty && valued {
        return Err(SwitchError::NeedsValue);
    }
    let bare = str_eq(s, "p") || str_eq(s, "P") || str_eq(s, "d");
    if !empty && bare {
        return Err(SwitchError::TakesNoValue);
    }
    let editing_act = str_eq(action, "add") || str_eq(action, "del") || str_eq(action, "update");
    let editing_sw = str_eq(s, "id") || str_eq(s, "desc") || str_eq(s, "pass") || str_eq(s, "expire")
        || str_eq(s, "chpass") || str_eq(s, "lock") || str_eq(s, "lockdate") || str_eq(s, "profile")
        || str_eq(s, "shell");
    if !editing_act && editing_sw {
        return Err(SwitchError::NotForAction);
    }
    if (!str_eq(action, "update") && str_eq(s, "name")) || (!str_eq(action, "add") && (str_eq(s, "p")
        || str_eq(s, "P"))) || (!str_eq(action, "del") && str_eq(s, "d")) {
        return Err(SwitchError::NotForAction);
    }
    Ok(())
}

/// Applies switch `s` with value `v` to the settings (see [`switch_effect`]);
/// on an error the settings are left as they were.
pub fn apply_user_switch(st: &mut UserSettings, s: &str, v: &str) -> (r: Result<SwitchStep, SwitchError>)
    ensures
        match switch_effect(old(st).model(), s@, v@) {
            Ok((m, step)) => r == Ok::<SwitchStep, SwitchError>(step) && final(st).model() == m,
            Err(e) => r == Err::<SwitchStep, SwitchError>(e) && final(st).model() == old(st).model(),
        },
{
    if str_eq(s, "id") {
        match parse_u32(v) {
            Ok(x) => {
                st.id = x;
                Ok(SwitchStep::Applied)
            },
            Err(e) => Err(SwitchError::BadId(e)),
        }
    } else if str_eq(s, "name") {
        st.name = v.to_owned();
        Ok(SwitchStep::Applied)
    } else if str_eq(s, "desc") {
        st.description = v.to_owned();
        Ok(SwitchStep::Applied)
    } else if str_eq(s, "pass") {
        if v.unicode_len() == 0 {
            Ok(SwitchStep::AskPassword)
        } else {
            Ok(SwitchStep::PasswordGiven)
        }
    } else if str_eq(s, "expire") {
        match parse_i64(v) {
            Ok(x) => {
                st.password_expiration_date = x;
                Ok(SwitchStep::Applied)
            },
            Err(e) => Err(SwitchError::BadExpire(e)),
        }
    } else if str_eq(s, "chpass") {
        match parse_bool(v) {
            Some(b) => {
                st.can_change_password = b;
                Ok(SwitchStep::Applied)
            },
            None => Err(SwitchError::BadChpass),
        }
    } else if str_eq(s, "lock") {
        match parse_bool(v) {
            Some(b) => {
                st.locked = b;
                Ok(SwitchStep::Applied)
            },
            None => Err(SwitchError::BadLock),
        }
    } else if str_eq(s, "lockdate") {
        match parse_i64(v) {
            Ok(x) => {
                st.lock_date = x;
                Ok(SwitchStep::Applied)
            },
            Err(e) => Err(SwitchError::BadLockDate(e)),
        }
    } else if str_eq(s, "profile") {
        st.profile_dir = v.to_owned();
        Ok(SwitchStep::Applied)
    } else if str_eq(s, "shell") {
        st.shell = v.to_owned();
        Ok(SwitchStep::Applied)
    } else if str_eq(s, "p") {
        st.create_profile = true;
        Ok(SwitchStep::Applied)
    } else if str_eq(s, "P") {
        st.create_profile = false;
        Ok(SwitchStep::Applied)
    } else if str_eq(s, "d") {
        st.delete_profile = true;
        Ok(SwitchStep::Applied)
    } else {
        Ok(SwitchStep::Unknown)
    }
}

/// Words joined with single spaces.
pub open spec fn joined(ws: Seq<Seq<char>>) -> Seq<char>
    decreases ws.len(),
{
    if ws.len() == 0 {
        Seq::empty()
    } else if ws.len() == 1 {
        ws[0]
    } else {
        joined(ws.drop_last()) + " "@ + ws.last()
    }
}

/// Joins words with single spaces (see [`joined`]).
pub fn join_words(words: &Vec<String>) -> (s: String)
    ensures
        s@ == joined(words.deep_view()),
{
    let ghost ws = words.deep_view();
    let mut s = String::new();
    let mut i: usize = 0;
    while i < words.len()
        invariant
            i <= words@.len(),
            ws == words.deep_view(),
            s@ == joined(ws.subrange(0, i as int)),
        decreases words@.len() - i,
    {
        if i > 0 {
            push_str(&mut s, " ");
        }
        push_str(&mut s, words[i].as_str());
        proof {
            let pre = ws.subrange(0, i + 1);
            assert(pre.drop_last() =~= ws.subrange(0, i as int));
            assert(pre.last() == words@[i as int]@);
            if i == 0 {
                assert(s@ =~= pre[0]);
            }
        }
        i = i + 1;
    }
    proof {
        assert(ws.subrange(0, words@.len() as int) =~= ws);
    }
    s
}

/// Why the passwords typed are refused.
#[derive(PartialEq, Eq, Structural, Debug, Clone, Copy)]
pub enum PasswordError {
    /// A password is shorter than the administrator allows.
    TooShort,
    /// A password is longer than the administrator allows.
    TooLong,
    /// The two passwords differ.
    Mismatch,
}

/// The checks on the password typed twice (as words): each, joined with
/// spaces, must have at least `min - 1` and at most `max - 1` characters
/// (a bound of zero means no bound), and both must be the same words.
pub open spec fn password_check(p1: Seq<Seq<char>>, p2: Seq<Seq<char>>, min: u64, max: u64) -> Result<Seq<char>, PasswordError> {
    let l1 = joined(p1).len();
    let l2 = joined(p2).len();
    if min != 0 && (l1 < min - 1 || l2 < min - 1) {
        Err(PasswordError::TooShort)
    } else if max != 0 && (l1 > max - 1 || l2 > max - 1) {
        Err(PasswordError::TooLong)
    } else if p1 == p2 {
        Ok(joined(p1))
    } else {
        Err(PasswordError::Mismatch)
    }
}

/// Checks the password typed twice and gives the password to encrypt (see
/// [`password_check`]).
pub fn check_passwords(p1: &Vec<String>, p2: &Vec<String>, min: u64, max: u64) -> (r: Result<String, PasswordError>)
    ensures
        match password_check(p1.deep_view(), p2.deep_view(), min, max) {
            Ok(p) => r matches Ok(s) && s@ == p,
            Err(e) => r == Err::<String, PasswordError>(e),
        },
{
    let j1 = join_words(p1);
    let j2 = join_words(p2);
    let l1 = j1.as_str().unicode_len() as u64;
    let l2 = j2.as_str().unicode_len() as u64;
    if min != 0 && (l1 < min - 1 || l2 < min - 1) {
        return Err(PasswordError::TooShort);
    }
    if max != 0 && (l1 > max - 1 || l2 > max - 1) {
        return Err(PasswordError::TooLong);
    }
    if same_words(p1, p2) {
        Ok(j1)
    } else {
        Err(PasswordError::Mismatch)
    }
}

/// Whether two lists of words are the same.
pub fn same_words(a: &Vec<String>, b: &Vec<String>) -> (r: bool)
    ensures
        r == (a.deep_view() == b.deep_view()),
{
    if a.len() != b.len() {
        proof {
            if a.deep_view() == b.deep_view() {
                assert(a.deep_view().len() == b.deep_view().len());
            }
        }
        return false;
    }
    let mut i: usize = 0;
    while i < a.len()
        invariant
            a@.len() == b@.len(),
            i <= a@.len(),
            forall|j: int| 0 <= j < i ==> a@[j]@ == b@[j]@,
        decreases a@.len() - i,
    {
        if !str_eq(a[i].as_str(), b[i].as_str()) {
            proof {
                if a.deep_view() == b.deep_view() {
                    assert(a.deep_view()[i as int] == b.deep_view()[i as int]);
                }
            }
            return false;
        }
        i = i + 1;
    }
    assert(a.deep_view() =~= b.deep_view());
    true
}

/// Why a user cannot be added.
#[derive(PartialEq, Eq, Structural, Debug, Clone, Copy)]
pub enum AddError {
    /// The name asked for reads as a number.
    IdAsName,
    /// A user already answers to that name.
    NameTaken,
    /// The ID asked for with `-id` is taken.
    IdTaken(u32),
}

/// The checks on the name of a user to add.
pub open spec fn add_name_check(request: Seq<char>, users: Seq<UserModel>) -> Result<(), AddError> {
    if parse_int(request, i64::MIN as int, i64::MAX as int) is Ok {
        Err(AddError::IdAsName)
    } else if some_user_answers(users, request) {
        Err(AddError::NameTaken)
    } else {
        Ok(())
    }
}

/// Checks the name of a user to add (see [`add_name_check`]).
pub fn check_new_name(request: &str, users: &Vec<User>) -> (r: Result<(), AddError>)
    ensures
        r == add_name_check(request@, users.deep_view()),
{
    if parse_i64(request).is_ok() {
        return Err(AddError::IdAsName);
    }
    if isthere(request, users) {
        return Err(AddError::NameTaken);
    }
    Ok(())
}

/// Some user answers to ID `id`.
pub open spec fn id_taken(users: Seq<UserModel>, id: u32) -> bool {
    some_user_answers(users, decimal(id as nat))
}

/// The ID a new user gets: `start` itself when it was asked for with `-id`
/// (an error when taken), otherwise the first ID from `start` on that no
/// user answers to. Without `-id`, some free ID must come before the IDs
/// run out (counting past the last `u32` is an overflow).
pub fn free_uid(start: u32, users: &Vec<User>, explicit: bool) -> (r: Result<u32, AddError>)
    requires
        !explicit ==> exists|x: u32| start <= x && !id_taken(users.deep_view(), x),
    ensures
        explicit ==> r == if id_taken(users.deep_view(), start) {
            Err::<u32, AddError>(AddError::IdTaken(start))
        } else {
            Ok(start)
        },
        !explicit ==> (r matches Ok(x) && start <= x && !id_taken(users.deep_view(), x) && forall|y: u32|
            start <= y < x ==> id_taken(users.deep_view(), y)),
{
    let ghost us = users.deep_view();
    let mut id = start;
    loop
        invariant
            us == users.deep_view(),
            start <= id,
            forall|y: u32| start <= y < id ==> id_taken(us, y),
            !explicit ==> exists|x: u32| id <= x && !id_taken(us, x),
            explicit ==> id == start,
        decreases u32::MAX - id,
    {
        let text = u64_to_decimal(id as u64);
        if !isthere(text.as_str(), users) {
            return Ok(id);
        }
        if explicit {
            return Err(AddError::IdTaken(id));
        }
        proof {
            let x = choose|x: u32| id <= x && !id_taken(us, x);
            assert(x != id);
        }
        id = id + 1;
    }
}

/// The record of a new user made from the settings: named `request`, with
/// no groups and a profile directory under the configured one.
pub open spec fn new_user_model(st: UserSettingsModel, id: u32, request: Seq<char>, password_change_date: i64, creation_date: i64) -> UserModel {
    UserModel {
        id,
        name: request,
        description: st.description,
        groups: Seq::empty(),
        password: st.password,
        password_change_date,
        password_expiration_date: st.password_expiration_date,
        can_change_password: st.can_change_password,
        creation_date,
        locked: st.locked,
        lock_date: st.lock_date,
        profile_dir: st.profile_dir + "/"@ + request,
        shell: st.shell,
    }
}

/// Copies of all users.
pub fn copy_users(users: &Vec<User>) -> (r: Vec<User>)
    ensures
        r.deep_view() == users.deep_view(),
{
    let mut r: Vec<User> = Vec::new();
    let mut i: usize = 0;
    while i < users.len()
        invariant
            i <= users@.len(),
            r.deep_view() == users.deep_view().subrange(0, i as int),
        decreases users@.len() - i,
    {
        let u = copy_user(&users[i]);
        let ghost before = r.deep_view();
        r.push(u);
        proof {
            assert(r.deep_view() =~= before.push(users@[i as int].deep_view()));
            assert(users.deep_view().subrange(0, i + 1) =~= users.deep_view().subrange(0, i as int).push(
                users@[i as int].deep_view(),
            ));
        }
        i = i + 1;
    }
    assert(users.deep_view().subrange(0, users@.len() as int) =~= users.deep_view());
    r
}

/// The users after adding user `request` with ID `id`, whose password was
/// changed at `password_change_date` and who was created at `creation_date`.
pub fn add_user_at(
    users: &Vec<User>,
    st: &UserSettings,
    id: u32,
    request: &str,
    password_change_date: i64,
    creation_date: i64,
) -> (r: Vec<User>)
    ensures
        r.deep_view() == users.deep_view().push(
            new_user_model(st.model(), id, request@, password_change_date, creation_date),
        ),
{
    let mut profile_dir = st.profile_dir.clone();
    push_str(&mut profile_dir, "/");
    push_str(&mut profile_dir, request);
    let u = User {
        id,
        name: request.to_owned(),
        groups: Vec::new(),
        description: st.description.clone(),
        password: st.password.clone(),
        password_change_date,
        password_expiration_date: st.password_expiration_date,
        can_change_password: st.can_change_password,
        creation_date,
        locked: st.locked,
        lock_date: st.lock_date,
        profile_dir,
        shell: st.shell.clone(),
    };
    let mut r = copy_users(users);
    let ghost before = r.deep_view();
    r.push(u);
    proof {
        assert(r.deep_view() =~= before.push(u.deep_view()));
        assert(u.deep_view() == new_user_model(st.model(), id, request@, password_change_date, creation_date));
    }
    r
}

/// The users after adding user `request` with ID `id`; the new user's
/// password change and creation dates are the current time.
pub fn add_user(users: &Vec<User>, st: &UserSettings, id: u32, request: &str) -> (r: Vec<User>)
    ensures
        r@.len() == users@.len() + 1,
        r.deep_view().subrange(0, users@.len() as int) == users.deep_view(),
        exists|d1: i64, d2: i64|
            r.deep_view()[users@.len() as int] == new_user_model(st.model(), id, request@, d1, d2),
{
    let password_change_date = utc_now_timestamp();
    let creation_date = utc_now_timestamp();
    let r = add_user_at(users, st, id, request, password_change_date, creation_date);
    proof {
        assert(r.deep_view().len() == r@.len());
        assert(users.deep_view().len() == users@.len());
        assert(r.deep_view().subrange(0, users@.len() as int) =~= users.deep_view());
        assert(r.deep_view()[users@.len() as int] == new_user_model(
            st.model(),
            id,
            request@,
            password_change_date,
            creation_date,
        ));
    }
    r
}

/// Why the user to delete or update is not there.
#[derive(PartialEq, Eq, Structural, Debug, Clone, Copy)]
pub enum LookupError {
    /// No user answers to the name.
    NoSuchName,
    /// No user answers to the ID that `-id` (or the default) gives.
    NoSuchId,
}

/// The check before deleting or updating: a request that reads as a number
/// is checked against the ID from the settings (not the request itself),
/// any other against the users' names and IDs.
pub open spec fn lookup_check(request: Seq<char>, id: u32, users: Seq<UserModel>) -> Result<(), LookupError> {
    let is_number = parse_int(request, i64::MIN as int, i64::MAX as int) is Ok;
    if !is_number && !some_user_answers(users, request) {
        Err(LookupError::NoSuchName)
    } else if is_number && !id_taken(users, id) {
        Err(LookupError::NoSuchId)
    } else {
        Ok(())
    }
}

/// Checks that the user to delete or update is there (see [`lookup_check`]).
pub fn check_user_exists(request: &str, id: u32, users: &Vec<User>) -> (r: Result<(), LookupError>)
    ensures
        r == lookup_check(request@, id, users.deep_view()),
{
    let is_number = parse_i64(request).is_ok();
    if !is_number && !isthere(request, users) {
        return Err(LookupError::NoSuchName);
    }
    let text = u64_to_decimal(id as u64);
    if is_number && !isthere(text.as_str(), users) {
        return Err(LookupError::NoSuchId);
    }
    Ok(())
}

/// The users that do not answer to `request`, in order.
pub open spec fn without_answering(users: Seq<UserModel>, request: Seq<char>) -> Seq<UserModel>
    decreases users.len(),
{
    if users.len() == 0 {
        Seq::empty()
    } else {
        without_answering(users.drop_last(), request) + (if answers_to(users.last(), request) {
            Seq::empty()
        } else {
            seq![users.last()]
        })
    }
}

/// The last user that answers to `request` among the first `k`.
pub open spec fn last_answering(users: Seq<UserModel>, request: Seq<char>, k: int) -> Option<UserModel>
    decreases k,
{
    if k <= 0 {
        None
    } else if answers_to(users[k - 1], request) {
        Some(users[k - 1])
    } else {
        last_answering(users, request, k - 1)
    }
}

/// Copies of the users that do not answer to `request`, and a copy of the
/// last one that does.
fn split_answering(users: &Vec<User>, request: &str) -> (r: (Vec<User>, Option<User>))
    ensures
        r.0.deep_view() == without_answering(users.deep_view(), request@),
        match r.1 {
            Some(u) => last_answering(users.deep_view(), request@, users@.len() as int) == Some(u.deep_view()),
            None => last_answering(users.deep_view(), request@, users@.len() as int) is None,
        },
{
    let ghost us = users.deep_view();
    let mut kept: Vec<User> = Vec::new();
    let mut last: Option<User> = None;
    let mut i: usize = 0;
    while i < users.len()
        invariant
            i <= users@.len(),
            us == users.deep_view(),
            kept.deep_view() == without_answering(us.subrange(0, i as int), request@),
            match last {
                Some(u) => last_answering(us, request@, i as int) == Some(u.deep_view()),
                None => last_answering(us, request@, i as int) is None,
            },
        decreases users@.len() - i,
    {
        proof {
            let pre = us.subrange(0, i + 1);
            assert(pre.drop_last() =~= us.subrange(0, i as int));
            assert(pre.last() == us[i as int]);
        }
        if user_answers(&users[i], request) {
            last = Some(copy_user(&users[i]));
        } else {
            let ghost before = kept.deep_view();
            kept.push(copy_user(&users[i]));
            proof {
                assert(kept.deep_view() =~= before + seq![us[i as int]]);
            }
        }
        proof {
            let pre = us.subrange(0, i + 1);
            if answers_to(us[i as int], request@) {
                assert(kept.deep_view() =~= without_answering(pre.drop_last(), request@) + Seq::<UserModel>::empty());
            }
        }
        i = i + 1;
    }
    proof {
        assert(us.subrange(0, users@.len() as int) =~= us);
    }
    (kept, last)
}

/// The users after deleting every user that answers to `request`.
pub fn del_users(users: &Vec<User>, request: &str) -> (r: Vec<User>)
    ensures
        r.deep_view() == without_answering(users.deep_view(), request@),
{
    let (kept, _) = split_answering(users, request);
    kept
}

/// The switches given, one flag per field that an update can change.
pub struct GivenSwitches {
    pub id: bool,
    pub name: bool,
    pub desc: bool,
    pub pass: bool,
    pub expire: bool,
    pub chpass: bool,
    pub lock: bool,
    pub lockdate: bool,
    pub profile: bool,
    pub shell: bool,
}

/// Which fields the switches change.
pub fn given_switches(swcs: &Vec<String>) -> (g: GivenSwitches)
    ensures
        g.id == swcs.deep_view().contains("id"@),
        g.name == swcs.deep_view().contains("name"@),
        g.desc == swcs.deep_view().contains("desc"@),
        g.pass == swcs.deep_view().contains("pass"@),
        g.expire == swcs.deep_view().contains("expire"@),
        g.chpass == swcs.deep_view().contains("chpass"@),
        g.lock == swcs.deep_view().contains("lock"@),
        g.lockdate == swcs.deep_view().contains("lockdate"@),
        g.profile == swcs.deep_view().contains("profile"@),
        g.shell == swcs.deep_view().contains("shell"@),
{
    GivenSwitches {
        id: has_switch(swcs, "id"),
        name: has_switch(swcs, "name"),
        desc: has_switch(swcs, "desc"),
        pass: has_switch(swcs, "pass"),
        expire: has_switch(swcs, "expire"),
        chpass: has_switch(swcs, "chpass"),
        lock: has_switch(swcs, "lock"),
        lockdate: has_switch(swcs, "lockdate"),
        profile: has_switch(swcs, "profile"),
        shell: has_switch(swcs, "shell"),
    }
}

/// The updated record: each field changed by a switch takes the settings'
/// value, the others stay; a new password also changes the password
/// change date; groups and creation date stay.
pub open spec fn updated_model(old: UserModel, st: UserSettingsModel, g: GivenSwitches, now: i64) -> UserModel {
    UserModel {
        id: if g.id { st.id } else { old.id },
        name: if g.name { st.name } else { old.name },
        description: if g.desc { st.description } else { old.description },
        groups: old.groups,
        password: if g.pass { st.password } else { old.password },
        password_change_date: if g.pass { now } else { old.password_change_date },
        password_expiration_date: if g.expire { st.password_expiration_date } else { old.password_expiration_date },
        can_change_password: if g.chpass { st.can_change_password } else { old.can_change_password },
        creation_date: old.creation_date,
        locked: if g.lock { st.locked } else { old.locked },
        lock_date: if g.lockdate { st.lock_date } else { old.lock_date },
        profile_dir: if g.profile { st.profile_dir } else { old.profile_dir },
        shell: if g.shell { st.shell } else { old.shell },
    }
}

fn pick_string(given: bool, new: &String, old: &String) -> (r: String)
    ensures
        r@ == if given { new@ } else { old@ },
{
    if given { new.clone() } else { old.clone() }
}

/// The users after updating the user that answers to `request`, with `now`
/// as the date of a new password: every user that answers to it is taken
/// out, and the last of them, updated, is put at the end. `None` when no
/// user answers to `request` (the tool checks that one does before updating).
pub fn update_user_at(users: &Vec<User>, request: &str, st: &UserSettings, g: &GivenSwitches, now: i64) -> (r:
    Option<Vec<User>>)
    ensures
        r is None <==> last_answering(users.deep_view(), request@, users@.len() as int) is None,
        r matches Some(v) ==> v.deep_view() == without_answering(users.deep_view(), request@).push(
            updated_model(
                last_answering(users.deep_view(), request@, users@.len() as int)->Some_0,
                st.model(),
                *g,
                now,
            ),
        ),
{
    let (mut kept, last) = split_answering(users, request);
    match last {
        None => None,
        Some(u) => {
            let groups = u.groups.clone();
            assert(groups@ =~= u.groups@);
            let nu = User {
                id: if g.id { st.id } else { u.id },
                name: pick_string(g.name, &st.name, &u.name),
                description: pick_string(g.desc, &st.description, &u.description),
                groups,
                password: pick_string(g.pass, &st.password, &u.password),
                password_change_date: if g.pass { now } else { u.password_change_date },
                password_expiration_date: if g.expire { st.password_expiration_date } else { u.password_expiration_date },
                can_change_password: if g.chpass { st.can_change_password } else { u.can_change_password },
                creation_date: u.creation_date,
                locked: if g.lock { st.locked } else { u.locked },
                lock_date: if g.lockdate { st.lock_date } else { u.lock_date },
                profile_dir: pick_string(g.profile, &st.profile_dir, &u.profile_dir),
                shell: pick_string(g.shell, &st.shell, &u.shell),
            };
            let ghost before = kept.deep_view();
            kept.push(nu);
            proof {
                assert(kept.deep_view() =~= before.push(nu.deep_view()));
                let lm = last_answering(users.deep_view(), request@, users@.len() as int)->Some_0;
                assert(lm == u.deep_view());
                assert(nu.deep_view() == updated_model(lm, st.model(), *g, now));
            }
            Some(kept)
        },
    }
}

/// The users after updating the user that answers to `request` (see
/// [`update_user_at`]); a new password is dated with the current time,
/// read only when `-pass` was given.
pub fn update_user(users: &Vec<User>, request: &str, st: &UserSettings, g: &GivenSwitches) -> (r: Option<Vec<User>>)
    ensures
        r is None <==> last_answering(users.deep_view(), request@, users@.len() as int) is None,
        r matches Some(v) ==> v@.len() > 0 && v.deep_view().drop_last() == without_answering(
            users.deep_view(),
            request@,
        ),
        r matches Some(v) ==> exists|now: i64| #[trigger]
            updated_model(
                last_answering(users.deep_view(), request@, users@.len() as int)->Some_0,
                st.model(),
                *g,
                now,
            ) == v.deep_view().last(),
        r matches Some(v) ==> !g.pass ==> v.deep_view().last() == updated_model(
            last_answering(users.deep_view(), request@, users@.len() as int)->Some_0,
            st.model(),
            *g,
            last_answering(users.deep_view(), request@, users@.len() as int)->Some_0.password_change_date,
        ),
{
    let now = if g.pass { utc_now_timestamp() } else { 0 };
    let r = update_user_at(users, request, st, g, now);
    proof {
        if r is Some {
            let v = r->Some_0;
            let w = without_answering(users.deep_view(), request@);
            let lm = last_answering(users.deep_view(), request@, users@.len() as int)->Some_0;
            assert(v.deep_view().drop_last() =~= w);
            assert(v.deep_view().last() == updated_model(lm, st.model(), *g, now));
            assert(!g.pass ==> updated_model(lm, st.model(), *g, now) == updated_model(
                lm,
                st.model(),
                *g,
                lm.password_change_date,
            ));
        }
    }
    r
}

/// The positions of the users that answer to `request` (what `list` shows).
pub fn matching_users(users: &Vec<User>, request: &str) -> (r: Vec<usize>)
    ensures
        forall|k: int| 0 <= k < r@.len() ==> r@[k] < users@.len() && answers_to(users.deep_view()[r@[k] as int], request@),
        forall|a: int, b: int| 0 <= a < b < r@.len() ==> r@[a] < r@[b],
        forall|i: int| 0 <= i < users@.len() && answers_to(users.deep_view()[i], request@) ==> r@.contains(i as usize),
{
    let ghost us = users.deep_view();
    let mut r: Vec<usize> = Vec::new();
    let mut i: usize = 0;
    while i < users.len()
        invariant
            i <= users@.len(),
            us == users.deep_view(),
            forall|k: int| 0 <= k < r@.len() ==> r@[k] < i && answers_to(us[r@[k] as int], request@),
            forall|a: int, b: int| 0 <= a < b < r@.len() ==> r@[a] < r@[b],
            forall|j: int| 0 <= j < i && answers_to(us[j], request@) ==> r@.contains(j as usize),
        decreases users@.len() - i,
    {
        if user_answers(&users[i], request) {
            let ghost before = r@;
            r.push(i);
            proof {
                assert forall|j: int| 0 <= j < i + 1 && answers_to(us[j], request@) implies r@.contains(j as usize) by {
                    if j < i {
                        let k = choose|k: int| 0 <= k < before.len() && before[k] == j as usize;
                        assert(r@[k] == j as usize);
                    } else {
                        assert(r@[before.len() as int] == i);
                    }
                }
            }
        }
        i = i + 1;
    }
    r
}

/// `whois` matches: by ID when the request reads as a number, by name otherwise.
pub open spec fn whois_match(u: UserModel, request: Seq<char>) -> bool {
    let is_number = parse_int(request, i64::MIN as int, i64::MAX as int) is Ok;
    (!is_number && u.name == request) || (is_number && decimal(u.id as nat) == request)
}

/// The positions of the users that `whois` shows for `request`.
pub fn whois(users: &Vec<User>, request: &str) -> (r: Vec<usize>)
    ensures
        forall|k: int| 0 <= k < r@.len() ==> r@[k] < users@.len() && whois_match(users.deep_view()[r@[k] as int], request@),
        forall|a: int, b: int| 0 <= a < b < r@.len() ==> r@[a] < r@[b],
        forall|i: int| 0 <= i < users@.len() && whois_match(users.deep_view()[i], request@) ==> r@.contains(i as usize),
{
    let ghost us = users.deep_view();
    let is_number = parse_i64(request).is_ok();
    let mut r: Vec<usize> = Vec::new();
    let mut i: usize = 0;
    while i < users.len()
        invariant
            i <= users@.len(),
            us == users.deep_view(),
            is_number == (parse_int(request@, i64::MIN as int, i64::MAX as int) is Ok),
            forall|k: int| 0 <= k < r@.len() ==> r@[k] < i && whois_match(us[r@[k] as int], request@),
            forall|a: int, b: int| 0 <= a < b < r@.len() ==> r@[a] < r@[b],
            forall|j: int| 0 <= j < i && whois_match(us[j], request@) ==> r@.contains(j as usize),
        decreases users@.len() - i,
    {
        let hit = if is_number {
            let text = u64_to_decimal(users[i].id as u64);
            str_eq(text.as_str(), request)
        } else {
            str_eq(users[i].name.as_str(), request)
        };
        if hit {
            let ghost before = r@;
            r.push(i);
            proof {
                assert forall|j: int| 0 <= j < i + 1 && whois_match(us[j], request@) implies r@.contains(j as usize) by {
                    if j < i {
                        let k = choose|k: int| 0 <= k < before.len() && before[k] == j as usize;
                        assert(r@[k] == j as usize);
                    } else {
                        assert(r@[before.len() as int] == i);
                    }
                }
            }
        }
        i = i + 1;
    }
    r
}

/// The users kept by a deletion are exactly those that do not answer to the
/// request, in their order.
proof fn lemma_without_answering(users: Seq<UserModel>, request: Seq<char>)
    ensures
        forall|k: int| 0 <= k < without_answering(users, request).len() ==> !answers_to(
            #[trigger] without_answering(users, request)[k],
            request,
        ) && users.contains(without_answering(users, request)[k]),
        forall|i: int| 0 <= i < users.len() && !answers_to(#[trigger] users[i], request) ==> without_answering(
            users,
            request,
        ).contains(users[i]),
    decreases users.len(),
{
    if users.len() > 0 {
        let front = users.drop_last();
        lemma_without_answering(front, request);
        let w = without_answering(users, request);
        let wf = without_answering(front, request);
        assert forall|k: int| 0 <= k < w.len() implies !answers_to(#[trigger] w[k], request) && users.contains(
            w[k],
        ) by {
            if k < wf.len() {
                assert(w[k] == wf[k]);
                let j = choose|j: int| 0 <= j < front.len() && front[j] == wf[k];
                assert(users[j] == front[j]);
            } else {
                assert(w[k] == users.last());
                assert(users[users.len() - 1] == users.last());
            }
        }
        assert forall|i: int| 0 <= i < users.len() && !answers_to(#[trigger] users[i], request) implies w.contains(
            users[i],
        ) by {
            if i < users.len() - 1 {
                assert(front[i] == users[i]);
                let k = choose|k: int| 0 <= k < wf.len() && wf[k] == front[i];
                assert(w[k] == wf[k]);
            } else {
                assert(w[wf.len() as int] == users.last());
            }
        }
    }
}

/// When no user answers to the request, deleting changes nothing.
proof fn lemma_without_answering_none(users: Seq<UserModel>, request: Seq<char>)
    requires
        !some_user_answers(users, request),
    ensures
        without_answering(users, request) == users,
    decreases users.len(),
{
    if users.len() > 0 {
        let front = users.drop_last();
        assert forall|i: int| 0 <= i < front.len() implies !answers_to(#[trigger] front[i], request) by {
            assert(front[i] == users[i]);
        }
        lemma_without_answering_none(front, request);
        assert(!answers_to(users[users.len() - 1], request));
        assert(front + seq![users.last()] =~= users);
    }
}

/// After a deletion no user answers to the request any more; every user
/// that did not answer to it is still there, and no user comes in.
pub proof fn law_deleted_users_are_gone(users: Seq<UserModel>, request: Seq<char>)
    ensures
        !some_user_answers(without_answering(users, request), request),
        forall|i: int| 0 <= i < users.len() && !answers_to(#[trigger] users[i], request) ==> without_answering(
            users,
            request,
        ).contains(users[i]),
        forall|u: UserModel| #[trigger] without_answering(users, request).contains(u) ==> users.contains(u),
{
    lemma_without_answering(users, request);
    let w = without_answering(users, request);
    assert forall|u: UserModel| #[trigger] w.contains(u) implies users.contains(u) by {
        let k = choose|k: int| 0 <= k < w.len() && w[k] == u;
        assert(users.contains(w[k]));
    }
}

/// A user just added answers to the name it was added under.
pub proof fn law_added_user_is_found(
    users: Seq<UserModel>,
    st: UserSettingsModel,
    id: u32,
    request: Seq<char>,
    d1: i64,
    d2: i64,
)
    ensures
        some_user_answers(users.push(new_user_model(st, id, request, d1, d2)), request),
{
    let all = users.push(new_user_model(st, id, request, d1, d2));
    assert(answers_to(all[users.len() as int], request));
}

/// Deleting the user just added, by the name it was added under, gives back
/// the users as they were, when the name passed the checks of adding.
pub proof fn law_delete_undoes_add(
    users: Seq<UserModel>,
    st: UserSettingsModel,
    id: u32,
    request: Seq<char>,
    d1: i64,
    d2: i64,
)
    requires
        add_name_check(request, users) is Ok,
    ensures
        without_answering(users.push(new_user_model(st, id, request, d1, d2)), request) == users,
{
    let all = users.push(new_user_model(st, id, request, d1, d2));
    assert(all.drop_last() =~= users);
    lemma_without_answering_none(users, request);
}

/// An update takes, for every field named by a given switch, the value the
/// settings hold, and keeps every other field of the user as it was; the
/// groups and the creation date never change, and the password change date
/// moves to `now` exactly when a new password is given.
pub proof fn law_update_takes_given_fields(old: UserModel, st: UserSettingsModel, g: GivenSwitches, now: i64)
    ensures
        ({
            let m = updated_model(old, st, g, now);
            &&& (g.id ==> m.id == st.id) && (!g.id ==> m.id == old.id)
            &&& (g.name ==> m.name == st.name) && (!g.name ==> m.name == old.name)
            &&& (g.desc ==> m.description == st.description) && (!g.desc ==> m.description == old.description)
            &&& (g.pass ==> m.password == st.password && m.password_change_date == now)
            &&& (!g.pass ==> m.password == old.password && m.password_change_date == old.password_change_date)
            &&& (g.expire ==> m.password_expiration_date == st.password_expiration_date)
            &&& (!g.expire ==> m.password_expiration_date == old.password_expiration_date)
            &&& (g.chpass ==> m.can_change_password == st.can_change_password)
            &&& (!g.chpass ==> m.can_change_password == old.can_change_password)
            &&& (g.lock ==> m.locked == st.locked) && (!g.lock ==> m.locked == old.locked)
            &&& (g.lockdate ==> m.lock_date == st.lock_date) && (!g.lockdate ==> m.lock_date == old.lock_date)
            &&& (g.profile ==> m.profile_dir == st.profile_dir) && (!g.profile ==> m.profile_dir == old.profile_dir)
            &&& (g.shell ==> m.shell == st.shell) && (!g.shell ==> m.shell == old.shell)
            &&& m.groups == old.groups
            &&& m.creation_date == old.creation_date
        }),
{
}

/// With no switch given, an update leaves the user exactly as it was.
pub proof fn law_update_without_switches_keeps_user(old: UserModel, st: UserSettingsModel, now: i64)
    ensures
        updated_model(
            old,
            st,
            GivenSwitches {
                id: false,
                name: false,
                desc: false,
                pass: false,
                expire: false,
                chpass: false,
                lock: false,
                lockdate: false,
                profile: false,
                shell: false,
            },
            now,
        ) == old,
{
}

/// The updated user is the last entry of the list, after every user that
/// does not answer to the request, and it is the last answering user with
/// its given fields taken from the settings.
pub proof fn law_update_puts_user_last(
    users: Seq<UserModel>,
    request: Seq<char>,
    st: UserSettingsModel,
    g: GivenSwitches,
    now: i64,
    result: Seq<UserModel>,
)
    requires
        last_answering(users, request, users.len() as int) is Some,
        result == without_answering(users, request).push(
            updated_model(last_answering(users, request, users.len() as int)->Some_0, st, g, now),
        ),
    ensures
        result.len() >= 1,
        g.lock ==> result.last().locked == st.locked,
        g.shell ==> result.last().shell == st.shell,
        !g.id ==> result.last().id == last_answering(users, request, users.len() as int)->Some_0.id,
        forall|k: int| 0 <= k < result.len() - 1 ==> !answers_to(#[trigger] result[k], request),
{
    lemma_without_answering(users, request);
    let w = without_answering(users, request);
    assert forall|k: int| 0 <= k < result.len() - 1 implies !answers_to(#[trigger] result[k], request) by {
        assert(result[k] == w[k]);
    }
}

/// The lengths and first letters of the switch names and boolean words,
/// which tell them apart.
proof fn lemma_switch_name_facts()
    ensures
        "id"@.len() == 2 && "id"@[0] == 'i',
        "name"@.len() == 4 && "name"@[0] == 'n',
        "desc"@.len() == 4 && "desc"@[0] == 'd',
        "pass"@.len() == 4 && "pass"@[0] == 'p',
        "expire"@.len() == 6 && "expire"@[0] == 'e',
        "chpass"@.len() == 6 && "chpass"@[0] == 'c',
        "lock"@.len() == 4 && "lock"@[0] == 'l',
        "lockdate"@.len() == 8 && "lockdate"@[0] == 'l',
        "profile"@.len() == 7 && "profile"@[0] == 'p',
        "shell"@.len() == 5 && "shell"@[0] == 's',
        "p"@.len() == 1 && "p"@[0] == 'p',
        "P"@.len() == 1 && "P"@[0] == 'P',
        "d"@.len() == 1 && "d"@[0] == 'd',
        "true"@.len() == 4 && "true"@[0] == 't',
        "false"@.len() == 5 && "false"@[0] == 'f',
{
    reveal_strlit("id");
    reveal_strlit("name");
    reveal_strlit("desc");
    reveal_strlit("pass");
    reveal_strlit("expire");
    reveal_strlit("chpass");
    reveal_strlit("lock");
    reveal_strlit("lockdate");
    reveal_strlit("profile");
    reveal_strlit("shell");
    reveal_strlit("p");
    reveal_strlit("P");
    reveal_strlit("d");
    reveal_strlit("true");
    reveal_strlit("false");
}

/// Each switch that sets a field of the settings sets that field to what its
/// value says and leaves every other field alone: `-lock` and `-chpass` to the
/// boolean written, `-name`, `-desc`, `-profile` and `-shell` to the text
/// given, `-p`/`-P` turn profile creation on and off and `-d` asks for the
/// profile to be removed; `-pass` changes no setting itself.
pub proof fn law_user_switches_set_their_field(st: UserSettingsModel, v: Seq<char>)
    ensures
        switch_effect(st, "lock"@, "true"@) == Ok::<(UserSettingsModel, SwitchStep), SwitchError>(
            (UserSettingsModel { locked: true, ..st }, SwitchStep::Applied),
        ),
        switch_effect(st, "lock"@, "false"@) == Ok::<(UserSettingsModel, SwitchStep), SwitchError>(
            (UserSettingsModel { locked: false, ..st }, SwitchStep::Applied),
        ),
        switch_effect(st, "chpass"@, "true"@) == Ok::<(UserSettingsModel, SwitchStep), SwitchError>(
            (UserSettingsModel { can_change_password: true, ..st }, SwitchStep::Applied),
        ),
        switch_effect(st, "chpass"@, "false"@) == Ok::<(UserSettingsModel, SwitchStep), SwitchError>(
            (UserSettingsModel { can_change_password: false, ..st }, SwitchStep::Applied),
        ),
        switch_effect(st, "name"@, v) == Ok::<(UserSettingsModel, SwitchStep), SwitchError>(
            (UserSettingsModel { name: v, ..st }, SwitchStep::Applied),
        ),
        switch_effect(st, "desc"@, v) == Ok::<(UserSettingsModel, SwitchStep), SwitchError>(
            (UserSettingsModel { description: v, ..st }, SwitchStep::Applied),
        ),
        switch_effect(st, "profile"@, v) == Ok::<(UserSettingsModel, SwitchStep), SwitchError>(
            (UserSettingsModel { profile_dir: v, ..st }, SwitchStep::Applied),
        ),
        switch_effect(st, "shell"@, v) == Ok::<(UserSettingsModel, SwitchStep), SwitchError>(
            (UserSettingsModel { shell: v, ..st }, SwitchStep::Applied),
        ),
        switch_effect(st, "p"@, v) == Ok::<(UserSettingsModel, SwitchStep), SwitchError>(
            (UserSettingsModel { create_profile: true, ..st }, SwitchStep::Applied),
        ),
        switch_effect(st, "P"@, v) == Ok::<(UserSettingsModel, SwitchStep), SwitchError>(
            (UserSettingsModel { create_profile: false, ..st }, SwitchStep::Applied),
        ),
        switch_effect(st, "d"@, v) == Ok::<(UserSettingsModel, SwitchStep), SwitchError>(
            (UserSettingsModel { delete_profile: true, ..st }, SwitchStep::Applied),
        ),
        switch_effect(st, "pass"@, v) matches Ok((m, _)) && m == st,
        (switch_effect(st, "pass"@, v) matches Ok((_, step)) && step == (if v.len() == 0 {
            SwitchStep::AskPassword
        } else {
            SwitchStep::PasswordGiven
        })),
{
    lemma_switch_name_facts();
}

/// The ID switches read their value as a number: `-id=n` sets the ID to `n`,
/// `-expire=n` and `-lockdate=n` set those dates to `n`, for every number
/// that fits.
pub proof fn law_number_switches(st: UserSettingsModel, n: u32, d: i64)
    ensures
        switch_effect(st, "id"@, decimal(n as nat)) == Ok::<(UserSettingsModel, SwitchStep), SwitchError>(
            (UserSettingsModel { id: n, ..st }, SwitchStep::Applied),
        ),
        d >= 0 ==> switch_effect(st, "expire"@, decimal(d as nat)) == Ok::<(UserSettingsModel, SwitchStep), SwitchError>(
            (UserSettingsModel { password_expiration_date: d, ..st }, SwitchStep::Applied),
        ),
        d >= 0 ==> switch_effect(st, "lockdate"@, decimal(d as nat)) == Ok::<(UserSettingsModel, SwitchStep), SwitchError>(
            (UserSettingsModel { lock_date: d, ..st }, SwitchStep::Applied),
        ),
{
    lemma_switch_name_facts();
    crate::parse::law_decimal_reads_back(n as nat, 0, u32::MAX as int);
    if d >= 0 {
        crate::parse::law_decimal_reads_back(d as nat, i64::MIN as int, i64::MAX as int);
    }
}

/// Root may do anything. Anyone else may never add or delete users, may
/// update only their own record, only its password and only when allowed
/// to change it, may list only themselves, and may always look users up.
pub proof fn law_who_may_do_what(action: Seq<char>, may_change_password: bool, points_to_self: bool, swcs: Seq<Seq<char>>)
    ensures
        !forbidden(true, action, may_change_password, points_to_self, swcs),
        forbidden(false, "add"@, may_change_password, points_to_self, swcs),
        forbidden(false, "del"@, may_change_password, points_to_self, swcs),
        !forbidden(false, "update"@, may_change_password, points_to_self, swcs) <==> (may_change_password
            && points_to_self && (swcs.len() == 0 || swcs == seq!["pass"@])),
        !forbidden(false, "list"@, may_change_password, points_to_self, swcs) <==> points_to_self,
        !forbidden(false, "whois"@, may_change_password, points_to_self, swcs),
        !forbidden(false, "isthere"@, may_change_password, points_to_self, swcs),
{
    reveal_strlit("add");
    reveal_strlit("del");
    reveal_strlit("update");
    reveal_strlit("list");
    reveal_strlit("pass");
    reveal_strlit("whois");
    reveal_strlit("isthere");
    assert("add"@.len() == 3 && "del"@.len() == 3 && "update"@.len() == 6 && "list"@.len() == 4);
    assert("whois"@.len() == 5 && "isthere"@.len() == 7 && "add"@[0] == 'a' && "del"@[0] == 'd');
    if swcs.len() == 1 && swcs[0] == "pass"@ {
        assert(swcs =~= seq!["pass"@]);
    }
}

/// A switch that needs a value is refused without one, a switch that takes
/// none is refused with one, and the switches that edit a user are refused
/// for any action but adding, deleting and updating.
pub proof fn law_switch_checks(action: Seq<char>, v: Seq<char>)
    ensures
        switch_check(action, "shell"@, ""@) == Err::<(), SwitchError>(SwitchError::NeedsValue),
        switch_check(action, "id"@, ""@) == Err::<(), SwitchError>(SwitchError::NeedsValue),
        v.len() > 0 ==> switch_check(action, "p"@, v) == Err::<(), SwitchError>(SwitchError::TakesNoValue),
        v.len() > 0 ==> switch_check(action, "d"@, v) == Err::<(), SwitchError>(SwitchError::TakesNoValue),
        v.len() > 0 && !(action == "add"@ || action == "del"@ || action == "update"@) ==> switch_check(
            action,
            "shell"@,
            v,
        ) == Err::<(), SwitchError>(SwitchError::NotForAction),
        v.len() > 0 ==> switch_check("update"@, "shell"@, v) == Ok::<(), SwitchError>(()),
        v.len() > 0 ==> switch_check("add"@, "name"@, v) == Err::<(), SwitchError>(SwitchError::NotForAction),
        v.len() > 0 ==> switch_check("update"@, "name"@, v) == Ok::<(), SwitchError>(()),
        switch_check("add"@, "p"@, ""@) == Ok::<(), SwitchError>(()),
        switch_check("update"@, "p"@, ""@) == Err::<(), SwitchError>(SwitchError::NotForAction),
        switch_check("del"@, "d"@, ""@) == Ok::<(), SwitchError>(()),
        switch_check("add"@, "d"@, ""@) == Err::<(), SwitchError>(SwitchError::NotForAction),
{
    lemma_switch_name_facts();
    reveal_strlit("add");
    reveal_strlit("del");
    reveal_strlit("update");
    reveal_strlit("list");
    reveal_strlit("pass");
    reveal_strlit("whois");
    reveal_strlit("isthere");
    reveal_strlit("");
    assert("add"@.len() == 3 && "del"@.len() == 3 && "update"@.len() == 6);
    assert("add"@[0] == 'a' && "del"@[0] == 'd' && "update"@[0] == 'u');
}

/// The password is taken only when both typings are the same words, within
/// the bounds; then it is those words joined by single spaces. A bound of
/// zero is no bound.
pub proof fn law_password_typed_twice(p1: Seq<Seq<char>>, p2: Seq<Seq<char>>, min: u64, max: u64)
    ensures
        password_check(p1, p2, min, max) is Ok ==> p1 == p2 && password_check(p1, p2, min, max)->Ok_0
            == joined(p1),
        p1 != p2 ==> password_check(p1, p2, min, max) is Err,
        password_check(p1, p1, 0, 0) == Ok::<Seq<char>, PasswordError>(joined(p1)),
        min != 0 && joined(p1).len() + 1 < min ==> password_check(p1, p2, min, max) == Err::<
            Seq<char>,
            PasswordError,
        >(PasswordError::TooShort),
{
}

/// Words joined with spaces: one word is itself, and each further word adds
/// a space and itself.
pub proof fn law_joined_words(ws: Seq<Seq<char>>, w: Seq<char>)
    ensures
        joined(seq![w]) == w,
        ws.len() > 0 ==> joined(ws.push(w)) == joined(ws) + " "@ + w,
        joined(Seq::<Seq<char>>::empty()) == Seq::<char>::empty(),
{
    assert(ws.push(w).drop_last() =~= ws);
}

/// A name that reads as a number, or that a user already answers to, cannot
/// be given to a new user; any other name can.
pub proof fn law_new_names(request: Seq<char>, users: Seq<UserModel>)
    ensures
        (add_name_check(request, users) is Ok) <==> (parse_int(request, i64::MIN as int, i64::MAX as int) is Err
            && !some_user_answers(users, request)),
        some_user_answers(users, request) ==> add_name_check(request, users) is Err,
{
}

/// A user answers to its own name and to its ID in decimal, and to nothing
/// else; the running user's rights come from the last user with its ID.
pub proof fn law_users_answer(u: UserModel, users: Seq<UserModel>, uid: u32)
    ensures
        answers_to(u, u.name),
        answers_to(u, decimal(u.id as nat)),
        users.len() > 0 && users.last().id == uid ==> rights_of(users, uid, users.len() as int) == (
            users.last().can_change_password,
            users.last().name,
        ),
        (forall|i: int| 0 <= i < users.len() ==> (#[trigger] users[i]).id != uid) ==> rights_of(
            users,
            uid,
            users.len() as int,
        ) == (false, Seq::<char>::empty()),
{
    if forall|i: int| 0 <= i < users.len() ==> (#[trigger] users[i]).id != uid {
        lemma_rights_of_none(users, uid, users.len() as int);
    }
}

proof fn lemma_rights_of_none(users: Seq<UserModel>, uid: u32, k: int)
    requires
        k <= users.len(),
        forall|i: int| 0 <= i < users.len() ==> (#[trigger] users[i]).id != uid,
    ensures
        rights_of(users, uid, k) == (false, Seq::<char>::empty()),
    decreases k,
{
    if k > 0 {
        assert(users[k - 1].id != uid);
        lemma_rights_of_none(users, uid, k - 1);
    }
}

/// A request names the running user by its ID when it reads as a number,
/// and by its name otherwise.
pub proof fn law_points_to_self(uid: u32, name: Seq<char>)
    ensures
        points_to(decimal(uid as nat), uid, name),
        parse_int(name, 0, u32::MAX as int) is Err ==> points_to(name, uid, name),
{
    crate::parse::law_decimal_reads_back(uid as nat, 0, u32::MAX as int);
}

/// A user to delete or update must be there: a name must be answered to by
/// some user, and a request that reads as a number must find a user with
/// the ID from the settings.
pub proof fn law_lookup(request: Seq<char>, id: u32, users: Seq<UserModel>)
    ensures
        parse_int(request, i64::MIN as int, i64::MAX as int) is Err ==> ((lookup_check(request, id, users) is Ok)
            <==> some_user_answers(users, request)),
        parse_int(request, i64::MIN as int, i64::MAX as int) is Ok ==> ((lookup_check(request, id, users) is Ok)
            <==> id_taken(users, id)),
        lookup_check(request, id, users) == Err::<(), LookupError>(LookupError::NoSuchName) ==> !some_user_answers(
            users,
            request,
        ),
{
}

/// A new user is named by the request and answers to it, gets the ID it
/// was given, belongs to no group, has its profile directory under the
/// configured one in a directory named after it, and takes its other
/// fields from the settings and the two dates given.
pub proof fn law_new_user(st: UserSettingsModel, id: u32, request: Seq<char>, d1: i64, d2: i64)
    ensures
        ({
            let u = new_user_model(st, id, request, d1, d2);
            &&& u.name == request && u.id == id && answers_to(u, request)
            &&& u.groups.len() == 0
            &&& u.profile_dir == st.profile_dir + seq!['/'] + request
            &&& u.shell == st.shell && u.description == st.description && u.password == st.password
            &&& u.locked == st.locked && u.lock_date == st.lock_date
            &&& u.can_change_password == st.can_change_password
            &&& u.password_expiration_date == st.password_expiration_date
            &&& u.password_change_date == d1 && u.creation_date == d2
        }),
{
    reveal_strlit("/");
    assert("/"@ =~= seq!['/']);
}

} // verus!
