//! Permission modes: merging the modes asked for with the ones a file has,
//! and the octal mode that goes to `chmod`.

use vstd::prelude::*;
use crate::parse::{decimal, digit_char, parse_int_radix, parse_u32_octal, u64_to_decimal, IntErrorKind};
use crate::text::str_eq;

verus! {

/// The four digits of a permission mode.
#[derive(PartialEq, Eq, Structural, Debug, Clone, Copy)]
pub struct ModesTable {
    pub additional: u32,
    pub user: u32,
    pub group: u32,
    pub other: u32,
}

/// Why the modes asked for cannot be used.
#[derive(PartialEq, Eq, Structural, Debug, Clone, Copy)]
pub enum ModeError {
    /// More than four modes were given.
    TooManyModes,
}

/// The mode kept from the request, or the one the file had when the request says `n`.
pub open spec fn pick(asked: Seq<char>, table: u32, previous: u32) -> u32 {
    if asked != "n"@ {
        table
    } else {
        previous
    }
}

/// The merged modes (see [`checkmode`]).
pub open spec fn modes_of(input: Seq<Seq<char>>, prev: (u32, u32, u32, u32), tables: (u32, u32, u32, u32)) -> Result<
    ModesTable,
    ModeError,
> {
    if input.len() == 4 {
        Ok(
            ModesTable {
                user: pick(input[0], tables.0, prev.1),
                group: pick(input[1], tables.1, prev.2),
                other: pick(input[2], tables.2, prev.3),
                additional: pick(input[3], tables.3, prev.0),
            },
        )
    } else {
        Err(ModeError::TooManyModes)
    }
}

/// Merges the requested modes with the file's: `input` holds the modes
/// asked for (user, group, others, additional), `tables` their values and
/// `prev` the file's current (additional, user, group, others). A mode
/// given as `n` keeps the file's. Four modes are needed; more are refused.
pub fn checkmode(input: &Vec<String>, prev: (u32, u32, u32, u32), tables: (u32, u32, u32, u32)) -> (r:
    Result<ModesTable, ModeError>)
    requires
        input@.len() >= 4,
    ensures
        r == modes_of(input.deep_view(), prev, tables),
{
    if input.len() != 4 {
        return Err(ModeError::TooManyModes);
    }
    proof {
        assert(input.deep_view()[0] == input@[0]@);
        assert(input.deep_view()[1] == input@[1]@);
        assert(input.deep_view()[2] == input@[2]@);
        assert(input.deep_view()[3] == input@[3]@);
    }
    let user = if !str_eq(input[0].as_str(), "n") { tables.0 } else { prev.1 };
    let group = if !str_eq(input[1].as_str(), "n") { tables.1 } else { prev.2 };
    let other = if !str_eq(input[2].as_str(), "n") { tables.2 } else { prev.3 };
    let additional = if !str_eq(input[3].as_str(), "n") { tables.3 } else { prev.0 };
    Ok(ModesTable { additional, user, group, other })
}

/// The mode as text: the four values in decimal, one after the other
/// (additional, user, group, others).
pub open spec fn mode_text_of(m: ModesTable) -> Seq<char> {
    decimal(m.additional as nat) + decimal(m.user as nat) + decimal(m.group as nat) + decimal(
        m.other as nat,
    )
}

/// Writes the mode as text (see [`mode_text_of`]).
pub fn mode_text(m: &ModesTable) -> (s: String)
    ensures
        s@ == mode_text_of(*m),
{
    let mut s = u64_to_decimal(m.additional as u64);
    let u = u64_to_decimal(m.user as u64);
    let g = u64_to_decimal(m.group as u64);
    let o = u64_to_decimal(m.other as u64);
    crate::text::push_str(&mut s, u.as_str());
    crate::text::push_str(&mut s, g.as_str());
    crate::text::push_str(&mut s, o.as_str());
    s
}

/// The mode bits that `chmod` gets: the mode text read in octal; an error
/// when a digit is 8 or 9 or the number does not fit in a `u32`.
pub fn mode_bits(m: &ModesTable) -> (r: Result<u32, IntErrorKind>)
    ensures
        match r {
            Ok(v) => parse_int_radix(mode_text_of(*m), 0, u32::MAX as int, 8) == Ok::<int, IntErrorKind>(v as int),
            Err(e) => parse_int_radix(mode_text_of(*m), 0, u32::MAX as int, 8) == Err::<int, IntErrorKind>(e),
        },
{
    let text = mode_text(m);
    parse_u32_octal(text.as_str())
}

proof fn lemma_single_digit(d: u32)
    requires
        d < 8,
    ensures
        decimal(d as nat) == seq![digit_char(d as nat)],
        crate::parse::is_digit(digit_char(d as nat), 8),
        crate::parse::digit_value(digit_char(d as nat)) == d,
{
    reveal_with_fuel(crate::parse::radix_digits, 2);
    vstd::utf8::char_u32_cast(digit_char(d as nat), (('0' as u32) + d) as u32);
}

/// When every mode is a single octal digit, `chmod` gets exactly the mode
/// those four digits write in octal: additional, user, group, others.
pub proof fn law_mode_bits_are_octal_digits(m: ModesTable)
    requires
        m.additional < 8,
        m.user < 8,
        m.group < 8,
        m.other < 8,
    ensures
        parse_int_radix(mode_text_of(m), 0, u32::MAX as int, 8) == Ok::<int, IntErrorKind>(
            m.additional * 512 + m.user * 64 + m.group * 8 + m.other,
        ),
{
    lemma_single_digit(m.additional);
    lemma_single_digit(m.user);
    lemma_single_digit(m.group);
    lemma_single_digit(m.other);
    let a = digit_char(m.additional as nat);
    let u = digit_char(m.user as nat);
    let g = digit_char(m.group as nat);
    let o = digit_char(m.other as nat);
    let t = mode_text_of(m);
    assert(t =~= seq![a, u, g, o]);
    assert(t[0] != '+' && t[0] != '-');
    let r1 = t.drop_first();
    let r2 = r1.drop_first();
    let r3 = r2.drop_first();
    let r4 = r3.drop_first();
    assert(r1 =~= seq![u, g, o]);
    assert(r2 =~= seq![g, o]);
    assert(r3 =~= seq![o]);
    assert(r4 =~= Seq::<char>::empty());
    let v1 = m.additional as int;
    let v2 = v1 * 8 + m.user;
    let v3 = v2 * 8 + m.group;
    let v4 = v3 * 8 + m.other;
    assert(v4 == m.additional * 512 + m.user * 64 + m.group * 8 + m.other);
    assert(crate::parse::read_digits(r4, v4, false, 0, u32::MAX as int, 8) == Ok::<int, IntErrorKind>(v4));
    assert(crate::parse::read_digits(r3, v3, false, 0, u32::MAX as int, 8) == Ok::<int, IntErrorKind>(v4));
    assert(crate::parse::read_digits(r2, v2, false, 0, u32::MAX as int, 8) == Ok::<int, IntErrorKind>(v4));
    assert(crate::parse::read_digits(r1, v1, false, 0, u32::MAX as int, 8) == Ok::<int, IntErrorKind>(v4));
    assert(crate::parse::read_digits(t, 0, false, 0, u32::MAX as int, 8) == Ok::<int, IntErrorKind>(v4));
}

/// With four modes asked for, each mode is the one asked for, or the file's
/// own where the request says `n`: the first goes to the user, the second
/// to the group, the third to the others and the fourth to the additional
/// bits. Asking `n` everywhere keeps the file's modes; asking none keeps
/// nothing of them. More than four modes are refused.
pub proof fn law_modes_merge(input: Seq<Seq<char>>, prev: (u32, u32, u32, u32), tables: (u32, u32, u32, u32))
    ensures
        input.len() > 4 ==> modes_of(input, prev, tables) == Err::<ModesTable, ModeError>(ModeError::TooManyModes),
        input.len() == 4 ==> ({
            let m = modes_of(input, prev, tables)->Ok_0;
            &&& (input[0] == "n"@ ==> m.user == prev.1) && (input[0] != "n"@ ==> m.user == tables.0)
            &&& (input[1] == "n"@ ==> m.group == prev.2) && (input[1] != "n"@ ==> m.group == tables.1)
            &&& (input[2] == "n"@ ==> m.other == prev.3) && (input[2] != "n"@ ==> m.other == tables.2)
            &&& (input[3] == "n"@ ==> m.additional == prev.0) && (input[3] != "n"@ ==> m.additional == tables.3)
        }),
        modes_of(seq!["n"@, "n"@, "n"@, "n"@], prev, tables) == Ok::<ModesTable, ModeError>(
            ModesTable { additional: prev.0, user: prev.1, group: prev.2, other: prev.3 },
        ),
{
}

/// The mode's text is its four values in decimal, additional first; for
/// single digits that is four characters.
pub proof fn law_mode_text_digits(m: ModesTable)
    requires
        m.additional < 8,
        m.user < 8,
        m.group < 8,
        m.other < 8,
    ensures
        mode_text_of(m) == seq![
            digit_char(m.additional as nat),
            digit_char(m.user as nat),
            digit_char(m.group as nat),
            digit_char(m.other as nat),
        ],
{
    lemma_single_digit(m.additional);
    lemma_single_digit(m.user);
    lemma_single_digit(m.group);
    lemma_single_digit(m.other);
    assert(mode_text_of(m) =~= seq![
        digit_char(m.additional as nat),
        digit_char(m.user as nat),
        digit_char(m.group as nat),
        digit_char(m.other as nat),
    ]);
}

} // verus!
