//! The tool that runs a command as another user: where its own switches end,
//! the IDs they ask for, and its configuration.

use vstd::prelude::*;
use std::collections::HashMap;
use crate::parse::{parse_int, parse_u32, IntErrorKind};
use crate::text::str_eq;

verus! {

/// An argument that is a switch: it starts with `-`.
pub open spec fn is_switch_word(a: Seq<char>) -> bool {
    a.len() > 0 && a[0] == '-'
}

/// The position of the first argument at `i` or after (the program's name,
/// at 0, is never looked at) that is a switch (`want_switch`) or is not one;
/// 0 when there is none.
pub open spec fn first_from(args: Seq<Seq<char>>, i: int, want_switch: bool) -> int
    decreases args.len() - i,
{
    if i >= args.len() {
        0
    } else if is_switch_word(args[i]) == want_switch {
        i
    } else {
        first_from(args, i + 1, want_switch)
    }
}

/// Whether `a` starts with `-`.
pub fn starts_with_dash(a: &str) -> (r: bool)
    ensures
        r == is_switch_word(a@),
{
    a.unicode_len() > 0 && a.get_char(0) == '-'
}

/// The position in `args` (the program's name first) of the first argument
/// after the name that is a switch (`want_switch`) or is not one; 0 when
/// there is none.
pub fn first_index(args: &Vec<String>, want_switch: bool) -> (r: usize)
    requires
        args@.len() >= 1,
    ensures
        r == first_from(args.deep_view(), 1, want_switch),
        r == 0 || (1 <= r < args@.len() && is_switch_word(args@[r as int]@) == want_switch),
        forall|j: int| 1 <= j < (if r == 0 { args@.len() as int } else { r as int }) ==> is_switch_word(
            #[trigger] args@[j]@,
        ) != want_switch,
{
    let ghost a = args.deep_view();
    let mut i: usize = 1;
    while i < args.len()
        invariant
            1 <= i <= args@.len(),
            a == args.deep_view(),
            first_from(a, 1, want_switch) == first_from(a, i as int, want_switch),
            forall|j: int| 1 <= j < i ==> is_switch_word(#[trigger] args@[j]@) != want_switch,
        decreases args@.len() - i,
    {
        assert(a[i as int] == args@[i as int]@);
        if starts_with_dash(args[i].as_str()) == want_switch {
            return i;
        }
        i = i + 1;
    }
    i = 0;
    i
}

/// Whether the tool's own switches come before the command: the first
/// switch stands before the first other argument.
pub fn switches_come_first(args: &Vec<String>) -> (r: bool)
    requires
        args@.len() >= 1,
    ensures
        r == (first_from(args.deep_view(), 1, true) < first_from(args.deep_view(), 1, false)),
{
    first_index(args, true) < first_index(args, false)
}

/// Why the switches are refused; each carries the position of the switch.
#[derive(PartialEq, Eq, Structural, Debug, Clone, Copy)]
pub enum RexError {
    UnknownSwitch(usize),
    BadNumber(usize, IntErrorKind),
}

/// The ID in a switch value, as `str::parse::<u32>` reads it.
pub open spec fn id_of(v: Seq<char>) -> Result<u32, IntErrorKind> {
    match parse_int(v, 0, u32::MAX as int) {
        Ok(n) => Ok(n as u32),
        Err(e) => Err(e),
    }
}

/// The (user, group) IDs after the switch `s` with value `v` at `index`:
/// `-u`/`-user` sets the user, `-g`/`-group` the group, `-b`/`-both` both.
pub open spec fn id_step(ids: (u32, u32), s: Seq<char>, v: Seq<char>, index: usize) -> Result<
    (u32, u32),
    RexError,
> {
    if !(s == "u"@ || s == "user"@ || s == "g"@ || s == "group"@ || s == "b"@ || s == "both"@) {
        Err(RexError::UnknownSwitch(index))
    } else {
        match id_of(v) {
            Err(e) => Err(RexError::BadNumber(index, e)),
            Ok(n) => if s == "u"@ || s == "user"@ {
                Ok((n, ids.1))
            } else if s == "g"@ || s == "group"@ {
                Ok((ids.0, n))
            } else {
                Ok((n, n))
            },
        }
    }
}

/// The IDs after the first `n` switches, starting from root's (0, 0).
pub open spec fn ids_after(swcs: Seq<Seq<char>>, vals: Seq<Seq<char>>, n: int) -> Result<(u32, u32), RexError>
    decreases n,
{
    if n <= 0 {
        Ok((0, 0))
    } else {
        match ids_after(swcs, vals, n - 1) {
            Err(e) => Err(e),
            Ok(ids) => id_step(ids, swcs[n - 1], vals[n - 1], (n - 1) as usize),
        }
    }
}

/// A refused switch stays refused: the IDs after more switches are the same error.
proof fn lemma_ids_after_err(swcs: Seq<Seq<char>>, vals: Seq<Seq<char>>, k: int, n: int)
    requires
        0 <= k <= n,
        ids_after(swcs, vals, k) is Err,
    ensures
        ids_after(swcs, vals, n) == ids_after(swcs, vals, k),
    decreases n - k,
{
    if n > k {
        lemma_ids_after_err(swcs, vals, k, n - 1);
    }
}

/// The user and group IDs to run as. The switches count only when they all
/// come before the command (`switches_first`); otherwise they belong to the
/// command and the IDs stay root's.
pub fn desired_ids(swcs: &Vec<String>, vals: &Vec<String>, switches_first: bool) -> (r: Result<
    (u32, u32),
    RexError,
>)
    requires
        switches_first ==> swcs@.len() <= vals@.len(),
    ensures
        !switches_first ==> r == Ok::<(u32, u32), RexError>((0, 0)),
        switches_first ==> r == ids_after(swcs.deep_view(), vals.deep_view(), swcs@.len() as int),
{
    if !switches_first {
        return Ok((0, 0));
    }
    let ghost sw = swcs.deep_view();
    let ghost va = vals.deep_view();
    let mut ids: (u32, u32) = (0, 0);
    let mut i: usize = 0;
    while i < swcs.len()
        invariant
            i <= swcs@.len() <= vals@.len(),
            switches_first,
            sw == swcs.deep_view(),
            va == vals.deep_view(),
            ids_after(sw, va, i as int) == Ok::<(u32, u32), RexError>(ids),
        decreases swcs@.len() - i,
    {
        let s = swcs[i].as_str();
        let v = vals[i].as_str();
        assert(sw[i as int] == s@ && va[i as int] == v@);
        if !(str_eq(s, "u") || str_eq(s, "user") || str_eq(s, "g") || str_eq(s, "group") || str_eq(s, "b")
            || str_eq(s, "both")) {
            proof {
                lemma_ids_after_err(sw, va, i + 1, swcs@.len() as int);
            }
            return Err(RexError::UnknownSwitch(i));
        }
        let n = match parse_u32(v) {
            Ok(n) => n,
            Err(e) => {
                proof {
                    lemma_ids_after_err(sw, va, i + 1, swcs@.len() as int);
                }
                return Err(RexError::BadNumber(i, e));
            },
        };
        if str_eq(s, "u") || str_eq(s, "user") {
            ids = (n, ids.1);
        } else if str_eq(s, "g") || str_eq(s, "group") {
            ids = (ids.0, n);
        } else {
            ids = (n, n);
        }
        i = i + 1;
    }
    Ok(ids)
}

/// Who may run what through the tool, as its configuration file holds it.
pub struct Rex {
    pub allow_users: Vec<String>,
    pub allow_groups: Vec<String>,
    pub allow_users_nopass: Vec<String>,
    pub allow_groups_nopass: Vec<String>,
    pub deny_users: Vec<String>,
    pub deny_groups: Vec<String>,
    pub allow_cmd: HashMap<String, String>,
    pub allow_cmd_nopass: HashMap<String, String>,
    pub deny_cmd: HashMap<String, String>,
}

impl Default for Rex {
    /// The group `admin` may run anything with a password, `root` without.
    fn default() -> (r: Self)
        ensures
            r.allow_users@.len() == 0,
            r.allow_groups@.len() == 1 && r.allow_groups@[0]@ == "admin"@,
            r.allow_users_nopass@.len() == 1 && r.allow_users_nopass@[0]@ == "root"@,
            r.allow_groups_nopass@.len() == 0,
            r.deny_users@.len() == 0,
            r.deny_groups@.len() == 0,
            r.allow_cmd@ == Map::<String, String>::empty(),
            r.allow_cmd_nopass@ == Map::<String, String>::empty(),
            r.deny_cmd@ == Map::<String, String>::empty(),
    {
        let mut allow_groups: Vec<String> = Vec::new();
        allow_groups.push("admin".to_owned());
        let mut allow_users_nopass: Vec<String> = Vec::new();
        allow_users_nopass.push("root".to_owned());
        Rex {
            allow_users: Vec::new(),
            allow_groups,
            allow_users_nopass,
            allow_groups_nopass: Vec::new(),
            deny_users: Vec::new(),
            deny_groups: Vec::new(),
            allow_cmd: HashMap::new(),
            allow_cmd_nopass: HashMap::new(),
            deny_cmd: HashMap::new(),
        }
    }
}

/// The lengths and first letters of the switch names, which tell them apart.
proof fn lemma_rex_switch_facts()
    ensures
        "u"@.len() == 1 && "u"@[0] == 'u',
        "user"@.len() == 4 && "user"@[0] == 'u',
        "g"@.len() == 1 && "g"@[0] == 'g',
        "group"@.len() == 5 && "group"@[0] == 'g',
        "b"@.len() == 1 && "b"@[0] == 'b',
        "both"@.len() == 4 && "both"@[0] == 'b',
{
    reveal_strlit("u");
    reveal_strlit("user");
    reveal_strlit("g");
    reveal_strlit("group");
    reveal_strlit("b");
    reveal_strlit("both");
}

/// The short and long form of each switch act alike: `-u`/`-user` sets the
/// user ID and keeps the group ID, `-g`/`-group` sets the group ID and keeps
/// the user ID, `-b`/`-both` sets both to the same number; a value that is
/// no number is refused with its reason, and any other switch is refused.
pub proof fn law_id_switches(ids: (u32, u32), v: Seq<char>, index: usize, s: Seq<char>)
    ensures
        id_of(v) matches Ok(n) ==> id_step(ids, "u"@, v, index) == Ok::<(u32, u32), RexError>((n, ids.1)),
        id_of(v) matches Ok(n) ==> id_step(ids, "user"@, v, index) == Ok::<(u32, u32), RexError>((n, ids.1)),
        id_of(v) matches Ok(n) ==> id_step(ids, "g"@, v, index) == Ok::<(u32, u32), RexError>((ids.0, n)),
        id_of(v) matches Ok(n) ==> id_step(ids, "group"@, v, index) == Ok::<(u32, u32), RexError>((ids.0, n)),
        id_of(v) matches Ok(n) ==> id_step(ids, "b"@, v, index) == Ok::<(u32, u32), RexError>((n, n)),
        id_of(v) matches Ok(n) ==> id_step(ids, "both"@, v, index) == Ok::<(u32, u32), RexError>((n, n)),
        id_of(v) is Err && (s == "u"@ || s == "user"@ || s == "g"@ || s == "group"@ || s == "b"@ || s
            == "both"@) ==> id_step(ids, s, v, index) == Err::<(u32, u32), RexError>(
            RexError::BadNumber(index, id_of(v)->Err_0),
        ),
        !(s == "u"@ || s == "user"@ || s == "g"@ || s == "group"@ || s == "b"@ || s == "both"@) ==> id_step(
            ids,
            s,
            v,
            index,
        ) == Err::<(u32, u32), RexError>(RexError::UnknownSwitch(index)),
{
    lemma_rex_switch_facts();
}

/// One switch given before the command decides the IDs alone, starting
/// from root's: `-b=n` runs as user `n` and group `n`.
pub proof fn law_single_switch_ids(s: Seq<char>, v: Seq<char>, n: u32)
    requires
        id_of(v) == Ok::<u32, IntErrorKind>(n),
    ensures
        (s == "b"@ || s == "both"@) ==> ids_after(seq![s], seq![v], 1) == Ok::<(u32, u32), RexError>((n, n)),
        (s == "u"@ || s == "user"@) ==> ids_after(seq![s], seq![v], 1) == Ok::<(u32, u32), RexError>((n, 0)),
        (s == "g"@ || s == "group"@) ==> ids_after(seq![s], seq![v], 1) == Ok::<(u32, u32), RexError>((0, n)),
{
    lemma_rex_switch_facts();
    assert(ids_after(seq![s], seq![v], 0) == Ok::<(u32, u32), RexError>((0, 0)));
}

} // verus!
