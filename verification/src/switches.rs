//! Command line switches: which are known, which carry a value, which are set.

use vstd::prelude::*;
use crate::text::str_eq;

verus! {

/// `s` is one of `names`.
pub open spec fn one_of(s: Seq<char>, names: Seq<&str>) -> bool {
    exists|k: int| 0 <= k < names.len() && (#[trigger] names[k])@ == s
}

/// Whether `s` is one of `names`.
pub fn is_one_of(s: &str, names: &[&str]) -> (r: bool)
    ensures
        r == one_of(s@, names@),
{
    let mut k: usize = 0;
    while k < names.len()
        invariant
            k <= names@.len(),
            forall|j: int| 0 <= j < k ==> (#[trigger] names@[j])@ != s@,
        decreases names@.len() - k,
    {
        if str_eq(s, names[k]) {
            assert(names@[k as int]@ == s@);
            return true;
        }
        k = k + 1;
    }
    false
}

/// The position of the first switch that is not one of `allowed`.
pub fn first_unknown(swcs: &Vec<String>, allowed: &[&str]) -> (r: Option<usize>)
    ensures
        match r {
            Some(i) => i < swcs@.len() && !one_of(swcs@[i as int]@, allowed@) && forall|j: int|
                0 <= j < i ==> one_of(#[trigger] swcs@[j]@, allowed@),
            None => forall|j: int| 0 <= j < swcs@.len() ==> one_of(#[trigger] swcs@[j]@, allowed@),
        },
{
    let mut i: usize = 0;
    while i < swcs.len()
        invariant
            i <= swcs@.len(),
            forall|j: int| 0 <= j < i ==> one_of(#[trigger] swcs@[j]@, allowed@),
        decreases swcs@.len() - i,
    {
        if !is_one_of(swcs[i].as_str(), allowed) {
            return Some(i);
        }
        i = i + 1;
    }
    None
}

/// The position of the first switch value that is not empty.
pub fn first_with_value(vals: &Vec<String>) -> (r: Option<usize>)
    ensures
        match r {
            Some(i) => i < vals@.len() && vals@[i as int]@.len() > 0 && forall|j: int|
                0 <= j < i ==> (#[trigger] vals@[j])@.len() == 0,
            None => forall|j: int| 0 <= j < vals@.len() ==> (#[trigger] vals@[j])@.len() == 0,
        },
{
    let mut i: usize = 0;
    while i < vals.len()
        invariant
            i <= vals@.len(),
            forall|j: int| 0 <= j < i ==> (#[trigger] vals@[j])@.len() == 0,
        decreases vals@.len() - i,
    {
        if vals[i].as_str().unicode_len() > 0 {
            return Some(i);
        }
        i = i + 1;
    }
    None
}

/// Some switch is one of `names`.
pub open spec fn switch_given(swcs: Seq<Seq<char>>, names: Seq<&str>) -> bool {
    exists|j: int| 0 <= j < swcs.len() && one_of(#[trigger] swcs[j], names)
}

/// Whether some switch is one of `names`.
pub fn any_switch(swcs: &Vec<String>, names: &[&str]) -> (r: bool)
    ensures
        r == switch_given(swcs.deep_view(), names@),
{
    let ghost sw = swcs.deep_view();
    let mut i: usize = 0;
    while i < swcs.len()
        invariant
            i <= swcs@.len(),
            sw == swcs.deep_view(),
            forall|j: int| 0 <= j < i ==> !one_of(#[trigger] sw[j], names@),
        decreases swcs@.len() - i,
    {
        assert(sw[i as int] == swcs@[i as int]@);
        if is_one_of(swcs[i].as_str(), names) {
            return true;
        }
        i = i + 1;
    }
    false
}

/// Whether switch `name` is among the switches.
pub fn has_switch(swcs: &Vec<String>, name: &str) -> (r: bool)
    ensures
        r == swcs.deep_view().contains(name@),
{
    let ghost sw = swcs.deep_view();
    let mut i: usize = 0;
    while i < swcs.len()
        invariant
            i <= swcs@.len(),
            sw == swcs.deep_view(),
            forall|j: int| 0 <= j < i ==> sw[j] != name@,
        decreases swcs@.len() - i,
    {
        assert(sw[i as int] == swcs@[i as int]@);
        if str_eq(swcs[i].as_str(), name) {
            return true;
        }
        i = i + 1;
    }
    false
}

} // verus!
