//! The wiping tool: its switches, the length to wipe and the byte written.

use vstd::prelude::*;
use crate::parse::{parse_int, parse_u64, IntErrorKind};
use crate::switches::{is_one_of, one_of};

verus! {

/// What the switches given so far ask of the wiping tool.
#[derive(PartialEq, Eq, Structural, Debug, Clone, Copy)]
pub struct WipeSettings {
    /// Whether the files are wiped at all (a refused question turns it off).
    pub confirmed: bool,
    /// Random bytes (or the character `0` when false).
    pub random: bool,
    /// The number of bytes to write; the file's own length when `None`.
    pub length: Option<u64>,
    /// Report each file written.
    pub verbose: bool,
}

/// What the tool does after a switch.
#[derive(PartialEq, Eq, Structural, Debug, Clone, Copy)]
pub enum WipeAction {
    /// Go on with the next switch.
    Continue,
    /// Ask whether the file given at this position is to be wiped; the answer
    /// becomes `confirmed`.
    AskAbout(usize),
}

/// Why the switches are refused; each carries the position of the switch.
#[derive(PartialEq, Eq, Structural, Debug, Clone, Copy)]
pub enum WipeError {
    UnknownSwitch(usize),
    ValueNotAccepted(usize),
    ValueNeeded(usize),
    BadLength(usize, IntErrorKind),
}

/// The settings before any switch.
pub fn initial_settings() -> (r: WipeSettings)
    ensures
        r == (WipeSettings { confirmed: true, random: true, length: None, verbose: false }),
{
    WipeSettings { confirmed: true, random: true, length: None, verbose: false }
}

/// The switches the tool knows.
pub open spec fn wipe_switch_known(s: Seq<char>) -> bool {
    s == "a"@ || s == "ask"@ || s == "v"@ || s == "verbose"@ || s == "r"@ || s == "random"@ || s
        == "z"@ || s == "zero"@ || s == "l"@ || s == "len"@
}

/// The length given to `-len`, as `str::parse::<u64>` reads it.
pub open spec fn length_of(v: Seq<char>) -> Result<u64, IntErrorKind> {
    match parse_int(v, 0, u64::MAX as int) {
        Ok(n) => Ok(n as u64),
        Err(e) => Err(e),
    }
}

/// The effect of the switch `s` with value `v`, given at position `index`.
pub open spec fn wipe_switch_effect(st: WipeSettings, s: Seq<char>, v: Seq<char>, index: usize) -> Result<
    (WipeSettings, WipeAction),
    WipeError,
> {
    if !wipe_switch_known(s) {
        Err(WipeError::UnknownSwitch(index))
    } else if s == "a"@ || s == "ask"@ {
        if v.len() > 0 {
            Err(WipeError::ValueNotAccepted(index))
        } else {
            Ok((st, WipeAction::AskAbout(index)))
        }
    } else if s == "r"@ || s == "random"@ || s == "z"@ || s == "zero"@ {
        if v.len() > 0 {
            Err(WipeError::ValueNotAccepted(index))
        } else {
            Ok((WipeSettings { random: s == "r"@ || s == "random"@, ..st }, WipeAction::Continue))
        }
    } else if s == "l"@ || s == "len"@ {
        if v.len() == 0 {
            Err(WipeError::ValueNeeded(index))
        } else {
            match length_of(v) {
                Ok(n) => Ok((WipeSettings { length: Some(n), ..st }, WipeAction::Continue)),
                Err(e) => Err(WipeError::BadLength(index, e)),
            }
        }
    } else {
        Ok((WipeSettings { verbose: true, ..st }, WipeAction::Continue))
    }
}

/// Reads the length given to `-len`: a `u64`, or why the text is none.
pub fn parselen(length: &str) -> (r: Result<u64, IntErrorKind>)
    ensures
        r == length_of(length@),
{
    parse_u64(length)
}

/// Takes in the switch `s` with value `v`, given at position `index`.
pub fn wipe_switch(st: WipeSettings, s: &str, v: &str, index: usize) -> (r: Result<
    (WipeSettings, WipeAction),
    WipeError,
>)
    ensures
        r == wipe_switch_effect(st, s@, v@, index),
{
    let empty = v.unicode_len() == 0;
    if !is_one_of(s, &["a", "ask", "v", "verbose", "r", "random", "z", "zero", "l", "len"]) {
        proof {
            reveal_strlit("a");
            reveal_strlit("ask");
            reveal_strlit("v");
            reveal_strlit("verbose");
            reveal_strlit("r");
            reveal_strlit("random");
            reveal_strlit("z");
            reveal_strlit("zero");
            reveal_strlit("l");
            reveal_strlit("len");
        }
        assert(!wipe_switch_known(s@)) by {
            let names: Seq<&str> = seq!["a", "ask", "v", "verbose", "r", "random", "z", "zero", "l", "len"];
            assert(names[0]@ == "a"@);
            assert(names[1]@ == "ask"@);
            assert(names[2]@ == "v"@);
            assert(names[3]@ == "verbose"@);
            assert(names[4]@ == "r"@);
            assert(names[5]@ == "random"@);
            assert(names[6]@ == "z"@);
            assert(names[7]@ == "zero"@);
            assert(names[8]@ == "l"@);
            assert(names[9]@ == "len"@);
        }
        return Err(WipeError::UnknownSwitch(index));
    }
    if crate::text::str_eq(s, "a") || crate::text::str_eq(s, "ask") {
        if !empty {
            Err(WipeError::ValueNotAccepted(index))
        } else {
            Ok((st, WipeAction::AskAbout(index)))
        }
    } else if crate::text::str_eq(s, "r") || crate::text::str_eq(s, "random") || crate::text::str_eq(s, "z")
        || crate::text::str_eq(s, "zero") {
        if !empty {
            Err(WipeError::ValueNotAccepted(index))
        } else {
            let random = crate::text::str_eq(s, "r") || crate::text::str_eq(s, "random");
            Ok((WipeSettings { random, ..st }, WipeAction::Continue))
        }
    } else if crate::text::str_eq(s, "l") || crate::text::str_eq(s, "len") {
        if empty {
            Err(WipeError::ValueNeeded(index))
        } else {
            match parselen(v) {
                Ok(n) => Ok((WipeSettings { length: Some(n), ..st }, WipeAction::Continue)),
                Err(e) => Err(WipeError::BadLength(index, e)),
            }
        }
    } else {
        Ok((WipeSettings { verbose: true, ..st }, WipeAction::Continue))
    }
}

/// The number of bytes written: the length given, or the file's own.
pub open spec fn bytes_of(length: Option<u64>, file_len: u64) -> u64 {
    match length {
        Some(n) => n,
        None => file_len,
    }
}

/// The number of bytes written over a file of length `file_len`.
pub fn bytes_to_write(st: &WipeSettings, file_len: u64) -> (r: u64)
    ensures
        r == bytes_of(st.length, file_len),
{
    match st.length {
        Some(n) => n,
        None => file_len,
    }
}

/// `rand::random::<u8>()`: a byte drawn at random; any byte may come.
#[verifier::external_body]
fn random_byte() -> u8 {
    rand::random::<u8>()
}

/// The byte written at each place: drawn at random, or the character `0`.
pub fn fill_byte(random: bool) -> (r: u8)
    ensures
        !random ==> r == 48,
{
    if random {
        random_byte()
    } else {
        48
    }
}

/// The lengths and first letters of the switch names, which tell them apart.
proof fn lemma_wipe_switch_facts()
    ensures
        "a"@.len() == 1 && "a"@[0] == 'a',
        "ask"@.len() == 3 && "ask"@[0] == 'a',
        "v"@.len() == 1 && "v"@[0] == 'v',
        "verbose"@.len() == 7 && "verbose"@[0] == 'v',
        "r"@.len() == 1 && "r"@[0] == 'r',
        "random"@.len() == 6 && "random"@[0] == 'r',
        "z"@.len() == 1 && "z"@[0] == 'z',
        "zero"@.len() == 4 && "zero"@[0] == 'z',
        "l"@.len() == 1 && "l"@[0] == 'l',
        "len"@.len() == 3 && "len"@[0] == 'l',
{
    reveal_strlit("a");
    reveal_strlit("ask");
    reveal_strlit("v");
    reveal_strlit("verbose");
    reveal_strlit("r");
    reveal_strlit("random");
    reveal_strlit("z");
    reveal_strlit("zero");
    reveal_strlit("l");
    reveal_strlit("len");
}

/// What each switch does, short and long forms alike: `-z`/`-zero` makes the
/// tool write the character `0` and `-r`/`-random` random bytes, changing
/// nothing else; `-a`/`-ask` changes no setting and asks about the file at
/// the switch's position; `-v`/`-verbose` turns on reports; `-l`/`-len` sets
/// the length it is given. A value given to `-a`, `-r` or `-z` is refused,
/// and so is a missing value of `-l`.
pub proof fn law_wipe_switches(st: WipeSettings, v: Seq<char>, index: usize)
    ensures
        wipe_switch_effect(st, "z"@, ""@, index) == Ok::<(WipeSettings, WipeAction), WipeError>(
            (WipeSettings { random: false, ..st }, WipeAction::Continue),
        ),
        wipe_switch_effect(st, "zero"@, ""@, index) == Ok::<(WipeSettings, WipeAction), WipeError>(
            (WipeSettings { random: false, ..st }, WipeAction::Continue),
        ),
        wipe_switch_effect(st, "r"@, ""@, index) == Ok::<(WipeSettings, WipeAction), WipeError>(
            (WipeSettings { random: true, ..st }, WipeAction::Continue),
        ),
        wipe_switch_effect(st, "random"@, ""@, index) == Ok::<(WipeSettings, WipeAction), WipeError>(
            (WipeSettings { random: true, ..st }, WipeAction::Continue),
        ),
        wipe_switch_effect(st, "a"@, ""@, index) == Ok::<(WipeSettings, WipeAction), WipeError>(
            (st, WipeAction::AskAbout(index)),
        ),
        wipe_switch_effect(st, "ask"@, ""@, index) == Ok::<(WipeSettings, WipeAction), WipeError>(
            (st, WipeAction::AskAbout(index)),
        ),
        wipe_switch_effect(st, "v"@, v, index) == Ok::<(WipeSettings, WipeAction), WipeError>(
            (WipeSettings { verbose: true, ..st }, WipeAction::Continue),
        ),
        wipe_switch_effect(st, "verbose"@, v, index) == Ok::<(WipeSettings, WipeAction), WipeError>(
            (WipeSettings { verbose: true, ..st }, WipeAction::Continue),
        ),
        v.len() > 0 ==> wipe_switch_effect(st, "z"@, v, index) == Err::<(WipeSettings, WipeAction), WipeError>(
            WipeError::ValueNotAccepted(index),
        ),
        v.len() > 0 ==> wipe_switch_effect(st, "r"@, v, index) == Err::<(WipeSettings, WipeAction), WipeError>(
            WipeError::ValueNotAccepted(index),
        ),
        v.len() > 0 ==> wipe_switch_effect(st, "a"@, v, index) == Err::<(WipeSettings, WipeAction), WipeError>(
            WipeError::ValueNotAccepted(index),
        ),
        wipe_switch_effect(st, "l"@, ""@, index) == Err::<(WipeSettings, WipeAction), WipeError>(
            WipeError::ValueNeeded(index),
        ),
        wipe_switch_effect(st, "len"@, ""@, index) == Err::<(WipeSettings, WipeAction), WipeError>(
            WipeError::ValueNeeded(index),
        ),
{
    lemma_wipe_switch_facts();
    reveal_strlit("");
}

/// `-l=n`/`-len=n` sets the length to `n` and changes nothing else, for
/// every length written in decimal.
pub proof fn law_wipe_length(st: WipeSettings, n: u64, index: usize)
    ensures
        wipe_switch_effect(st, "l"@, crate::parse::decimal(n as nat), index) == Ok::<
            (WipeSettings, WipeAction),
            WipeError,
        >((WipeSettings { length: Some(n), ..st }, WipeAction::Continue)),
        wipe_switch_effect(st, "len"@, crate::parse::decimal(n as nat), index) == Ok::<
            (WipeSettings, WipeAction),
            WipeError,
        >((WipeSettings { length: Some(n), ..st }, WipeAction::Continue)),
{
    lemma_wipe_switch_facts();
    crate::parse::law_decimal_reads_back(n as nat, 0, u64::MAX as int);
    crate::parse::lemma_decimal_nonempty(n as nat);
}

/// Whatever the switches, the written byte is the character `0` unless the
/// settings ask for random bytes.
pub proof fn law_zero_switch_writes_zeros(st: WipeSettings, s: Seq<char>, index: usize)
    requires
        s == "z"@ || s == "zero"@,
        wipe_switch_effect(st, s, ""@, index) is Ok,
    ensures
        !wipe_switch_effect(st, s, ""@, index)->Ok_0.0.random,
{
    law_wipe_switches(st, ""@, index);
}

/// A length given with `-len` is written whatever the file's length; without
/// one the whole file is written over; the tool starts with no length, so
/// it writes over whole files until told otherwise.
pub proof fn law_length_written(n: u64, file_len: u64, other: u64)
    ensures
        bytes_of(Some(n), file_len) == n,
        bytes_of(Some(n), file_len) == bytes_of(Some(n), other),
        bytes_of(None, file_len) == file_len,
{
}

} // verus!
