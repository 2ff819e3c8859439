//! Ownership requests: `uid,gid`, where `n` keeps the current owner.

use vstd::prelude::*;
use crate::parse::{decimal, digit_char, parse_int, parse_u32, IntErrorKind};
use crate::text::{char_index, is_white_space, split_char, split_on, str_eq, trailing_ws, trim, trimmed};

verus! {

/// Why an ownership request cannot be used.
#[derive(PartialEq, Eq, Structural, Debug, Clone, Copy)]
pub enum OwnError {
    /// More than two IDs were given.
    TooManyIds,
    /// The user ID is not a `u32`.
    BadUid(IntErrorKind),
    /// The group ID is not a `u32`.
    BadGid(IntErrorKind),
}

/// One ID of a request: `None` for `n` (keep the current one).
pub open spec fn requested_id(s: Seq<char>) -> Result<Option<u32>, IntErrorKind> {
    if s == "n"@ {
        Ok(None)
    } else {
        match parse_int(s, 0, u32::MAX as int) {
            Ok(v) => Ok(Some(v as u32)),
            Err(e) => Err(e),
        }
    }
}

/// The user and group IDs that a request `uid,gid` asks for (each trimmed).
pub open spec fn owner_ids_of(s: Seq<char>) -> Result<(Option<u32>, Option<u32>), OwnError> {
    let ids = split_on(s, ',');
    if ids.len() > 2 {
        Err(OwnError::TooManyIds)
    } else {
        match requested_id(trimmed(ids[0])) {
            Err(e) => Err(OwnError::BadUid(e)),
            Ok(user) => match requested_id(trimmed(ids[1])) {
                Err(e) => Err(OwnError::BadGid(e)),
                Ok(group) => Ok((user, group)),
            },
        }
    }
}

fn read_id(s: &str) -> (r: Result<Option<u32>, IntErrorKind>)
    ensures
        r == requested_id(s@),
{
    if str_eq(s, "n") {
        Ok(None)
    } else {
        match parse_u32(s) {
            Ok(v) => Ok(Some(v)),
            Err(e) => Err(e),
        }
    }
}

/// Reads an ownership request. The request needs a comma: with a single ID
/// the group ID is missing, and the request cannot be read.
pub fn owner_ids(request: &str) -> (r: Result<(Option<u32>, Option<u32>), OwnError>)
    requires
        split_on(request@, ',').len() >= 2,
    ensures
        r == owner_ids_of(request@),
{
    let ids = split_char(request, ',');
    assert(ids@.len() == split_on(request@, ',').len());
    assert(ids@[0]@ == ids.deep_view()[0]);
    assert(ids@[1]@ == ids.deep_view()[1]);
    let uid = trim(ids[0].as_str());
    let gid = trim(ids[1].as_str());
    if ids.len() > 2 {
        return Err(OwnError::TooManyIds);
    }
    let user = match read_id(uid.as_str()) {
        Err(e) => {
            return Err(OwnError::BadUid(e));
        },
        Ok(u) => u,
    };
    let group = match read_id(gid.as_str()) {
        Err(e) => {
            return Err(OwnError::BadGid(e));
        },
        Ok(g) => g,
    };
    Ok((user, group))
}

/// Whether a request holds at least two IDs (see [`owner_ids`]).
pub fn has_two_ids(request: &str) -> (r: bool)
    ensures
        r == (split_on(request@, ',').len() >= 2),
{
    let ids = split_char(request, ',');
    ids.len() >= 2
}

/// Every character of a number written in decimal is a digit.
proof fn lemma_decimal_digits(n: nat)
    ensures
        forall|j: int| 0 <= j < decimal(n).len() ==> '0' <= #[trigger] decimal(n)[j] <= '9',
        decimal(n).len() > 0,
    decreases n,
{
    reveal_with_fuel(crate::parse::radix_digits, 2);
    if n >= 10 {
        assert(n / 10 < n) by (nonlinear_arith)
            requires
                n >= 10,
        ;
        lemma_decimal_digits(n / 10);
        let d = n % 10;
        vstd::utf8::char_u32_cast(digit_char(d), (('0' as u32) + d) as u32);
        assert(decimal(n) == decimal(n / 10) + seq![digit_char(d)]);
        assert forall|j: int| 0 <= j < decimal(n).len() implies '0' <= #[trigger] decimal(n)[j] <= '9' by {
            if j < decimal(n / 10).len() {
                assert(decimal(n)[j] == decimal(n / 10)[j]);
            }
        }
    } else {
        vstd::utf8::char_u32_cast(digit_char(n), (('0' as u32) + n) as u32);
    }
}

/// A number written in decimal is its own ID: no white space to trim, no `n`.
proof fn lemma_decimal_id(n: u32)
    ensures
        trimmed(decimal(n as nat)) == decimal(n as nat),
        requested_id(decimal(n as nat)) == Ok::<Option<u32>, IntErrorKind>(Some(n)),
        forall|j: int| 0 <= j < decimal(n as nat).len() ==> #[trigger] decimal(n as nat)[j] != ',',
{
    let d = decimal(n as nat);
    lemma_decimal_digits(n as nat);
    crate::parse::law_decimal_reads_back(n as nat, 0, u32::MAX as int);
    crate::text::lemma_find_class_is(d, false, 0);
    assert(d.subrange(0, d.len() as int) =~= d);
    assert(!is_white_space(d.last()));
    assert(trailing_ws(d) == 0);
    assert(d.subrange(0, d.len() - 0) =~= d);
    reveal_strlit("n");
    if d == "n"@ {
        assert(d[0] == 'n');
    }
}

/// A request is split at its comma: its first piece names the user and its
/// second the group.
proof fn lemma_split_pair(a: Seq<char>, b: Seq<char>)
    requires
        forall|j: int| 0 <= j < a.len() ==> #[trigger] a[j] != ',',
        forall|j: int| 0 <= j < b.len() ==> #[trigger] b[j] != ',',
    ensures
        split_on(a + seq![','] + b, ',') == seq![a, b],
{
    let s = a + seq![','] + b;
    crate::text::lemma_char_index(s, ',');
    let k = char_index(s, ',');
    if k < a.len() {
        assert(s[k] == a[k]);
    } else if k > a.len() {
        assert(s[a.len() as int] == ',');
    }
    assert(s.subrange(0, k) =~= a);
    assert(s.subrange(k + 1, s.len() as int) =~= b);
    crate::text::lemma_char_index(b, ',');
    if char_index(b, ',') < b.len() {
        assert(b[char_index(b, ',')] == ',');
    }
    assert(split_on(b, ',') == seq![b]);
    assert(seq![a] + seq![b] =~= seq![a, b]);
}

/// `uid,gid` written in decimal asks for exactly those IDs; `n` in either
/// place keeps that owner; a request with more than two IDs is refused.
pub proof fn law_owner_request(u: u32, g: u32)
    ensures
        owner_ids_of(decimal(u as nat) + seq![','] + decimal(g as nat)) == Ok::<
            (Option<u32>, Option<u32>),
            OwnError,
        >((Some(u), Some(g))),
        owner_ids_of("n"@ + seq![','] + decimal(g as nat)) == Ok::<(Option<u32>, Option<u32>), OwnError>(
            (None, Some(g)),
        ),
        owner_ids_of(decimal(u as nat) + seq![','] + "n"@) == Ok::<(Option<u32>, Option<u32>), OwnError>(
            (Some(u), None),
        ),
        owner_ids_of(decimal(u as nat) + seq![','] + decimal(g as nat) + seq![','] + decimal(g as nat))
            == Err::<(Option<u32>, Option<u32>), OwnError>(OwnError::TooManyIds),
{
    lemma_decimal_id(u);
    lemma_decimal_id(g);
    reveal_strlit("n");
    let du = decimal(u as nat);
    let dg = decimal(g as nat);
    let nn = "n"@;
    assert(nn.len() == 1 && nn[0] == 'n');
    lemma_split_pair(du, dg);
    lemma_split_pair(nn, dg);
    lemma_split_pair(du, nn);
    assert(trimmed(nn) == nn) by {
        crate::text::lemma_find_class_is(nn, false, 0);
        assert(nn.subrange(0, 1) =~= nn);
        assert(trailing_ws(nn) == 0);
        assert(nn.subrange(0, 1 - 0) =~= nn);
    }
    let three = du + seq![','] + dg + seq![','] + dg;
    lemma_split_pair(dg, dg);
    crate::text::lemma_char_index(three, ',');
    let k = char_index(three, ',');
    if k < du.len() {
        assert(three[k] == du[k]);
    } else if k > du.len() {
        assert(three[du.len() as int] == ',');
    }
    assert(three.subrange(k + 1, three.len() as int) =~= dg + seq![','] + dg);
}

} // verus!
