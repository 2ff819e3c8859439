//! Splitting text into lines (with the line endings of `str::lines`:
//! `\n` or `\r\n`, the final one optional) and cutting long lines into
//! pieces of a fixed byte width.

use vstd::prelude::*;
use vstd::utf8::*;

verus! {

/// Index of the first `\n` byte in `s`, or `s.len()` when there is none.
pub open spec fn newline_index(s: Seq<u8>) -> int
    decreases s.len(),
{
    if s.len() == 0 {
        0
    } else if s[0] == 10u8 {
        0
    } else {
        1 + newline_index(s.drop_first())
    }
}

/// The first line of a non-empty text, without its line ending.
pub open spec fn first_line(s: Seq<u8>) -> Seq<u8> {
    let k = newline_index(s);
    if k == s.len() {
        s
    } else if k > 0 && s[k - 1] == 13u8 {
        s.subrange(0, k - 1)
    } else {
        s.subrange(0, k)
    }
}

/// What follows the first line and its line ending.
pub open spec fn after_line(s: Seq<u8>) -> Seq<u8> {
    let k = newline_index(s);
    if k == s.len() {
        Seq::empty()
    } else {
        s.subrange(k + 1, s.len() as int)
    }
}

/// The lines of a text, as `str::lines` gives them.
pub open spec fn text_lines(s: Seq<u8>) -> Seq<Seq<u8>>
    decreases s.len(),
{
    if s.len() == 0 {
        Seq::empty()
    } else {
        proof {
            lemma_newline_index_bounds(s);
        }
        seq![first_line(s)] + text_lines(after_line(s))
    }
}

/// Pieces of `w` bytes taken from the front of `line`, then what is left
/// (shorter than `w`, possibly empty).
pub open spec fn chunks(line: Seq<u8>, w: nat) -> Seq<Seq<u8>>
    decreases line.len(),
    when w > 0
{
    if line.len() < w {
        seq![line]
    } else {
        seq![line.subrange(0, w as int)] + chunks(line.subrange(w as int, line.len() as int), w)
    }
}

/// Every cut that `chunks` makes in `line` falls on the first byte of a
/// character (or at the end of the line).
pub open spec fn cuts_on_char_starts(line: Seq<u8>, w: nat) -> bool
    decreases line.len(),
    when w > 0
{
    if line.len() < w {
        true
    } else {
        &&& (line.len() == w || !is_continuation_byte(line[w as int]))
        &&& cuts_on_char_starts(line.subrange(w as int, line.len() as int), w)
    }
}

/// Cutting `line` into pieces of `w` bytes is defined: the width is not
/// zero and every cut is on a character start.
pub open spec fn line_cuttable(line: Seq<u8>, w: nat) -> bool {
    line.len() > w ==> (w > 0 && cuts_on_char_starts(line, w))
}

/// Every line of `s` that is longer than `w` can be cut into pieces of `w` bytes.
pub open spec fn all_lines_cuttable(s: Seq<u8>, w: nat) -> bool {
    forall|i: int| 0 <= i < text_lines(s).len() ==> line_cuttable(#[trigger] text_lines(s)[i], w)
}

/// The concatenation of a sequence of byte strings.
pub open spec fn concat(pieces: Seq<Seq<u8>>) -> Seq<u8>
    decreases pieces.len(),
{
    if pieces.len() == 0 {
        Seq::empty()
    } else {
        pieces[0] + concat(pieces.drop_first())
    }
}

pub proof fn lemma_newline_index_bounds(s: Seq<u8>)
    ensures
        0 <= newline_index(s) <= s.len(),
        newline_index(s) < s.len() ==> s[newline_index(s)] == 10u8,
        forall|j: int| 0 <= j < newline_index(s) ==> s[j] != 10u8,
    decreases s.len(),
{
    if s.len() > 0 && s[0] != 10u8 {
        lemma_newline_index_bounds(s.drop_first());
        assert forall|j: int| 0 <= j < newline_index(s) implies s[j] != 10u8 by {
            if j > 0 {
                assert(s[j] == s.drop_first()[j - 1]);
            }
        }
    }
}

/// `newline_index` is the position found by a forward scan for `\n`.
pub proof fn lemma_newline_index_is(s: Seq<u8>, k: int)
    requires
        0 <= k <= s.len(),
        k == s.len() || s[k] == 10u8,
        forall|j: int| 0 <= j < k ==> s[j] != 10u8,
    ensures
        newline_index(s) == k,
{
    lemma_newline_index_bounds(s);
    let n = newline_index(s);
    if n < k {
        assert(s[n] == 10u8);
    } else if k < n {
        assert(s[k] != 10u8);
    }
}

/// The pieces that `chunks` cuts from a line are `w` bytes long, but for the
/// last one, which is shorter; put back together they give the line.
pub proof fn law_chunks_reassemble(line: Seq<u8>, w: nat)
    requires
        w > 0,
    ensures
        chunks(line, w).len() > 0,
        forall|i: int| 0 <= i < chunks(line, w).len() - 1 ==> (#[trigger] chunks(line, w)[i]).len() == w,
        chunks(line, w).last().len() < w,
        concat(chunks(line, w)) == line,
    decreases line.len(),
{
    if line.len() >= w {
        let rest = line.subrange(w as int, line.len() as int);
        law_chunks_reassemble(rest, w);
        let c = chunks(line, w);
        assert(c == seq![line.subrange(0, w as int)] + chunks(rest, w));
        assert(c.drop_first() =~= chunks(rest, w));
        assert(concat(c) == c[0] + concat(c.drop_first()));
        assert forall|i: int| 0 <= i < c.len() - 1 implies (#[trigger] c[i]).len() == w by {
            if i > 0 {
                assert(c[i] == chunks(rest, w)[i - 1]);
            }
        }
        assert(line.subrange(0, w as int) + rest =~= line);
    } else {
        let c = chunks(line, w);
        assert(c == seq![line]);
        assert(c.drop_first() =~= Seq::<Seq<u8>>::empty());
        assert(concat(c) == c[0] + concat(c.drop_first()));
        assert(line + Seq::<u8>::empty() =~= line);
    }
}

/// Bytes that mark the end of a line's content.
pub open spec fn is_line_end_byte(b: u8) -> bool {
    b == 10u8 || b == 13u8
}

/// Finds the first line of `t[start..]`: returns the end of its content and
/// the start of the next line.
pub fn next_line(t: &[u8], start: usize) -> (r: (usize, usize))
    requires
        start < t@.len(),
    ensures
        start <= r.0 <= r.1 <= t@.len(),
        r.1 > start,
        first_line(t@.subrange(start as int, t@.len() as int)) == t@.subrange(start as int, r.0 as int),
        after_line(t@.subrange(start as int, t@.len() as int)) == t@.subrange(r.1 as int, t@.len() as int),
        r.0 == t@.len() || is_line_end_byte(t@[r.0 as int]),
        r.1 == t@.len() || t@[r.1 - 1] == 10u8,
{
    let mut k = start;
    while k < t.len() && t[k] != 10u8
        invariant
            start <= k <= t@.len(),
            forall|j: int| start <= j < k ==> t@[j] != 10u8,
        decreases t@.len() - k,
    {
        k = k + 1;
    }
    let ghost s = t@.subrange(start as int, t@.len() as int);
    proof {
        lemma_newline_index_is(s, k - start);
    }
    if k == t.len() {
        assert(s =~= t@.subrange(start as int, k as int));
        assert(t@.subrange(k as int, t@.len() as int) =~= Seq::<u8>::empty());
        (k, k)
    } else if k > start && t[k - 1] == 13u8 {
        assert(s.subrange(0, k - start - 1) =~= t@.subrange(start as int, k - 1));
        assert(s.subrange(k - start + 1, s.len() as int) =~= t@.subrange(k + 1, t@.len() as int));
        (k - 1, k + 1)
    } else {
        assert(s.subrange(0, k - start) =~= t@.subrange(start as int, k as int));
        assert(s.subrange(k - start + 1, s.len() as int) =~= t@.subrange(k + 1, t@.len() as int));
        (k, k + 1)
    }
}

pub proof fn lemma_text_lines_unfold(s: Seq<u8>, w: nat)
    requires
        s.len() > 0,
        all_lines_cuttable(s, w),
    ensures
        text_lines(s) == seq![first_line(s)] + text_lines(after_line(s)),
        line_cuttable(first_line(s), w),
        all_lines_cuttable(after_line(s), w),
{
    let ls = text_lines(s);
    assert(ls == seq![first_line(s)] + text_lines(after_line(s)));
    assert(ls[0] == first_line(s));
    assert(line_cuttable(ls[0], w));
    assert forall|i: int| 0 <= i < text_lines(after_line(s)).len() implies line_cuttable(
        #[trigger] text_lines(after_line(s))[i],
        w,
    ) by {
        assert(ls[i + 1] == text_lines(after_line(s))[i]);
        assert(line_cuttable(ls[i + 1], w));
    }
}

pub proof fn lemma_all_lines_cuttable_unfold(s: Seq<u8>, w: nat)
    requires
        s.len() > 0,
    ensures
        all_lines_cuttable(s, w) <==> (line_cuttable(first_line(s), w) && all_lines_cuttable(
            after_line(s),
            w,
        )),
{
    let ls = text_lines(s);
    let rest = text_lines(after_line(s));
    assert(ls == seq![first_line(s)] + rest);
    if all_lines_cuttable(s, w) {
        lemma_text_lines_unfold(s, w);
    }
    if line_cuttable(first_line(s), w) && all_lines_cuttable(after_line(s), w) {
        assert forall|i: int| 0 <= i < ls.len() implies line_cuttable(#[trigger] ls[i], w) by {
            if i > 0 {
                assert(ls[i] == rest[i - 1]);
            }
        }
    }
}

/// Whether `cuts_on_char_starts` holds of the line `t[start..e]`.
pub fn check_cuts(t: &[u8], start: usize, e: usize, w: usize) -> (ok: bool)
    requires
        start <= e <= t@.len(),
        w > 0,
    ensures
        ok == cuts_on_char_starts(t@.subrange(start as int, e as int), w as nat),
{
    let mut pos = start;
    while e - pos >= w
        invariant
            start <= pos <= e <= t@.len(),
            w > 0,
            cuts_on_char_starts(t@.subrange(start as int, e as int), w as nat)
                == cuts_on_char_starts(t@.subrange(pos as int, e as int), w as nat),
        decreases e - pos,
    {
        let ghost rest = t@.subrange(pos as int, e as int);
        proof {
            assert(rest.subrange(w as int, rest.len() as int) =~= t@.subrange(pos + w, e as int));
        }
        if e - pos > w {
            assert(rest[w as int] == t@[pos + w]);
            if 0x80u8 <= t[pos + w] && t[pos + w] <= 0xbfu8 {
                return false;
            }
        }
        pos = pos + w;
    }
    true
}

/// Whether every line of `t` is cuttable into pieces of `w` bytes.
pub fn check_all_lines_cuttable(t: &[u8], w: usize) -> (ok: bool)
    ensures
        ok == all_lines_cuttable(t@, w as nat),
{
    let mut start: usize = 0;
    proof {
        assert(t@.subrange(0, t@.len() as int) =~= t@);
    }
    while start < t.len()
        invariant
            start <= t@.len(),
            all_lines_cuttable(t@, w as nat) == all_lines_cuttable(
                t@.subrange(start as int, t@.len() as int),
                w as nat,
            ),
        decreases t@.len() - start,
    {
        let ghost s = t@.subrange(start as int, t@.len() as int);
        let (e, n) = next_line(t, start);
        proof {
            lemma_all_lines_cuttable_unfold(s, w as nat);
        }
        if e - start > w {
            if w == 0 {
                return false;
            }
            if !check_cuts(t, start, e, w) {
                return false;
            }
        }
        start = n;
    }
    proof {
        let s = t@.subrange(start as int, t@.len() as int);
        assert(text_lines(s) =~= Seq::<Seq<u8>>::empty());
    }
    true
}

} // verus!
