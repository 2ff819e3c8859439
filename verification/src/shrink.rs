//! `shrink`: cut every line that is wider than a given number of bytes into
//! pieces of that width, one piece per output line; narrower lines are kept.

use vstd::prelude::*;
use vstd::utf8::*;
use crate::lines::{
    after_line, all_lines_cuttable, chunks, concat, cuts_on_char_starts, first_line,
    lemma_newline_index_bounds, lemma_text_lines_unfold, next_line, text_lines,
    check_all_lines_cuttable, lemma_newline_index_is, line_cuttable, newline_index,
};
use crate::text::{
    lemma_after_ascii, lemma_ascii_byte_valid, lemma_valid_between, push_range, string_from_utf8,
};

verus! {

/// Each piece followed by a newline byte.
pub open spec fn terminated(pieces: Seq<Seq<u8>>) -> Seq<u8>
    decreases pieces.len(),
{
    if pieces.len() == 0 {
        Seq::empty()
    } else {
        pieces[0] + seq![10u8] + terminated(pieces.drop_first())
    }
}

/// The output lines that `shrink` makes of one line: the line itself when it
/// fits in `w` bytes, otherwise its pieces of `w` bytes (the last one
/// shorter, possibly empty).
pub open spec fn line_pieces(line: Seq<u8>, w: nat) -> Seq<Seq<u8>> {
    if line.len() > w {
        chunks(line, w)
    } else {
        seq![line]
    }
}

/// What `shrink` makes of one line: its pieces (see [`line_pieces`]), each
/// on a line of its own.
pub open spec fn shrunk_line(line: Seq<u8>, w: nat) -> Seq<u8> {
    terminated(line_pieces(line, w))
}

/// What `shrink` makes of a whole text: its lines, shrunk one after the other.
pub open spec fn shrunk_text(s: Seq<u8>, w: nat) -> Seq<u8> {
    concat(text_lines(s).map_values(|line: Seq<u8>| shrunk_line(line, w)))
}

proof fn lemma_shrunk_text_unfold(s: Seq<u8>, w: nat)
    requires
        s.len() > 0,
    ensures
        shrunk_text(s, w) == shrunk_line(first_line(s), w) + shrunk_text(after_line(s), w),
{
    let f = |line: Seq<u8>| shrunk_line(line, w);
    let ls = text_lines(s);
    lemma_newline_index_bounds(s);
    assert(ls == seq![first_line(s)] + text_lines(after_line(s)));
    let m = ls.map_values(f);
    assert(m.drop_first() =~= text_lines(after_line(s)).map_values(f));
    assert(m[0] == shrunk_line(first_line(s), w));
}

proof fn lemma_shrunk_text_empty(s: Seq<u8>, w: nat)
    requires
        s.len() == 0,
    ensures
        shrunk_text(s, w) == Seq::<u8>::empty(),
{
    assert(text_lines(s).map_values(|line: Seq<u8>| shrunk_line(line, w)) =~= Seq::<Seq<u8>>::empty());
}

/// Byte position `i` of `t` starts a character or is the end of `t`.
pub open spec fn char_start(t: Seq<u8>, i: int) -> bool {
    i == t.len() || !is_continuation_byte(t[i])
}

/// Appends the pieces of the line `t[start..e]` to `out`, each followed by a newline.
fn push_line_pieces(out: &mut Vec<u8>, t: &[u8], start: usize, e: usize, w: usize)
    requires
        start <= e <= t@.len(),
        w > 0,
        cuts_on_char_starts(t@.subrange(start as int, e as int), w as nat),
        valid_utf8(t@) ==> valid_utf8(old(out)@),
        valid_utf8(t@) ==> char_start(t@, start as int) && char_start(t@, e as int),
    ensures
        final(out)@ == old(out)@ + terminated(chunks(t@.subrange(start as int, e as int), w as nat)),
        valid_utf8(t@) ==> valid_utf8(final(out)@),
{
    let ghost line = t@.subrange(start as int, e as int);
    let mut pos = start;
    while e - pos >= w
        invariant
            start <= pos <= e <= t@.len(),
            w > 0,
            out@ + terminated(chunks(t@.subrange(pos as int, e as int), w as nat)) == old(out)@
                + terminated(chunks(line, w as nat)),
            cuts_on_char_starts(t@.subrange(pos as int, e as int), w as nat),
            valid_utf8(t@) ==> valid_utf8(out@),
            valid_utf8(t@) ==> char_start(t@, pos as int) && char_start(t@, e as int),
            line == t@.subrange(start as int, e as int),
        decreases e - pos,
    {
        let ghost rest = t@.subrange(pos as int, e as int);
        let ghost before = out@;
        proof {
            assert(rest.subrange(0, w as int) =~= t@.subrange(pos as int, pos + w));
            assert(rest.subrange(w as int, rest.len() as int) =~= t@.subrange(pos + w, e as int));
            let c = chunks(rest, w as nat);
            assert(c == seq![rest.subrange(0, w as int)] + chunks(t@.subrange(pos + w, e as int), w as nat));
            assert(c.drop_first() =~= chunks(t@.subrange(pos + w, e as int), w as nat));
            assert(terminated(c) == c[0] + seq![10u8] + terminated(c.drop_first()));
            if valid_utf8(t@) {
                if pos + w < e {
                    assert(rest[w as int] == t@[pos + w]);
                }
            }
        }
        push_range(out, t, pos, pos + w);
        out.push(10u8);
        proof {
            if valid_utf8(t@) {
                lemma_valid_between(t@, pos as int, pos + w);
                lemma_ascii_byte_valid(10u8);
                vstd::utf8::valid_utf8_concat(before, t@.subrange(pos as int, pos + w));
                vstd::utf8::valid_utf8_concat(before + t@.subrange(pos as int, pos + w), seq![10u8]);
            }
            assert(out@ =~= before + t@.subrange(pos as int, pos + w) + seq![10u8]);
        }
        pos = pos + w;
    }
    let ghost before = out@;
    let ghost rest = t@.subrange(pos as int, e as int);
    proof {
        let c = chunks(rest, w as nat);
        assert(c == seq![rest]);
        assert(c.drop_first() =~= Seq::<Seq<u8>>::empty());
        assert(terminated(c) == c[0] + seq![10u8] + terminated(c.drop_first()));
    }
    push_range(out, t, pos, e);
    out.push(10u8);
    proof {
        if valid_utf8(t@) {
            lemma_valid_between(t@, pos as int, e as int);
            lemma_ascii_byte_valid(10u8);
            vstd::utf8::valid_utf8_concat(before, rest);
            vstd::utf8::valid_utf8_concat(before + rest, seq![10u8]);
        }
        assert(out@ =~= before + rest + seq![10u8] + Seq::<u8>::empty());
    }
}

/// Appends the line `t[start..e]` and a newline to `out`.
fn push_whole_line(out: &mut Vec<u8>, t: &[u8], start: usize, e: usize)
    requires
        start <= e <= t@.len(),
        valid_utf8(t@) ==> valid_utf8(old(out)@),
        valid_utf8(t@) ==> char_start(t@, start as int) && char_start(t@, e as int),
    ensures
        final(out)@ == old(out)@ + terminated(seq![t@.subrange(start as int, e as int)]),
        valid_utf8(t@) ==> valid_utf8(final(out)@),
{
    let ghost before = out@;
    let ghost line = t@.subrange(start as int, e as int);
    proof {
        let c = seq![line];
        assert(c.drop_first() =~= Seq::<Seq<u8>>::empty());
        assert(terminated(c) == c[0] + seq![10u8] + terminated(c.drop_first()));
    }
    push_range(out, t, start, e);
    out.push(10u8);
    proof {
        if valid_utf8(t@) {
            lemma_valid_between(t@, start as int, e as int);
            lemma_ascii_byte_valid(10u8);
            vstd::utf8::valid_utf8_concat(before, line);
            vstd::utf8::valid_utf8_concat(before + line, seq![10u8]);
        }
        assert(out@ =~= before + line + seq![10u8] + Seq::<u8>::empty());
    }
}

/// `shrink` on bytes: see [`shrink`].
fn shrink_bytes(width: usize, t: &[u8]) -> (out: Vec<u8>)
    requires
        all_lines_cuttable(t@, width as nat),
    ensures
        out@ == shrunk_text(t@, width as nat),
        valid_utf8(t@) ==> valid_utf8(out@),
{
    let mut out: Vec<u8> = Vec::new();
    let mut start: usize = 0;
    proof {
        assert(t@.subrange(0, t@.len() as int) =~= t@);
        if valid_utf8(t@) {
            assert(valid_utf8(Seq::<u8>::empty()));
        }
    }
    while start < t.len()
        invariant
            start <= t@.len(),
            out@ + shrunk_text(t@.subrange(start as int, t@.len() as int), width as nat)
                == shrunk_text(t@, width as nat),
            all_lines_cuttable(t@.subrange(start as int, t@.len() as int), width as nat),
            valid_utf8(t@) ==> valid_utf8(out@),
            valid_utf8(t@) ==> char_start(t@, start as int),
        decreases t@.len() - start,
    {
        let ghost s = t@.subrange(start as int, t@.len() as int);
        let (e, n) = next_line(t, start);
        proof {
            lemma_text_lines_unfold(s, width as nat);
            lemma_shrunk_text_unfold(s, width as nat);
            if valid_utf8(t@) && n < t@.len() {
                lemma_after_ascii(t@, n - 1);
            }
        }
        if e - start > width {
            push_line_pieces(&mut out, t, start, e, width);
        } else {
            push_whole_line(&mut out, t, start, e);
        }
        proof {
            assert(out@ + shrunk_text(t@.subrange(n as int, t@.len() as int), width as nat)
                == shrunk_text(t@, width as nat));
        }
        start = n;
    }
    proof {
        lemma_shrunk_text_empty(t@.subrange(start as int, t@.len() as int), width as nat);
        assert(out@ + Seq::<u8>::empty() =~= out@);
    }
    out
}

/// Whether [`shrink`] is defined on `width` and `text`: every line longer
/// than `width` bytes can be cut every `width` bytes without splitting a
/// character (which needs `width` to be at least one).
pub fn can_shrink(width: usize, text: &str) -> (ok: bool)
    ensures
        ok == all_lines_cuttable(encode_utf8(text@), width as nat),
{
    check_all_lines_cuttable(text.as_bytes(), width)
}

/// Cuts every line of `text` that is longer than `width` bytes into pieces
/// of `width` bytes (the last piece holds the rest, and is empty when the
/// width divides the line's length) and puts each piece on a line of its
/// own. Lines no longer than `width` are kept as they are, each on a line
/// of its own.
pub fn shrink(width: usize, text: &str) -> (res: String)
    requires
        all_lines_cuttable(encode_utf8(text@), width as nat),
    ensures
        encode_utf8(res@) == shrunk_text(encode_utf8(text@), width as nat),
{
    let t = text.as_bytes();
    proof {
        vstd::utf8::encode_utf8_valid_utf8(text@);
    }
    let out = shrink_bytes(width, t);
    match string_from_utf8(out) {
        Some(s) => s,
        None => {
            assert(false);
            String::new()
        },
    }
}

/// A byte string without a newline byte.
pub open spec fn no_newline(p: Seq<u8>) -> bool {
    forall|j: int| 0 <= j < p.len() ==> p[j] != 10u8
}

/// Pieces that are at most `w` bytes long and hold no newline.
pub open spec fn narrow_pieces(ps: Seq<Seq<u8>>, w: nat) -> bool {
    forall|i: int| 0 <= i < ps.len() ==> (#[trigger] ps[i]).len() <= w && no_newline(ps[i])
}

/// The pieces `shrink` puts on lines of their own, in order.
pub open spec fn shrink_pieces(s: Seq<u8>, w: nat) -> Seq<Seq<u8>>
    decreases s.len(),
{
    if s.len() == 0 {
        Seq::empty()
    } else {
        proof {
            lemma_newline_index_bounds(s);
        }
        line_pieces(first_line(s), w) + shrink_pieces(after_line(s), w)
    }
}

proof fn lemma_terminated_append(a: Seq<Seq<u8>>, b: Seq<Seq<u8>>)
    ensures
        terminated(a + b) == terminated(a) + terminated(b),
    decreases a.len(),
{
    if a.len() == 0 {
        assert(a + b =~= b);
        assert(Seq::<u8>::empty() + terminated(b) =~= terminated(b));
    } else {
        lemma_terminated_append(a.drop_first(), b);
        assert((a + b).drop_first() =~= a.drop_first() + b);
        assert((a + b)[0] == a[0]);
    }
}

proof fn lemma_first_line_no_newline(s: Seq<u8>)
    requires
        s.len() > 0,
    ensures
        no_newline(first_line(s)),
        first_line(s).len() <= s.len(),
{
    lemma_newline_index_bounds(s);
}

proof fn lemma_chunks_narrow(line: Seq<u8>, w: nat)
    requires
        w > 0,
        no_newline(line),
    ensures
        narrow_pieces(chunks(line, w), w),
    decreases line.len(),
{
    let c = chunks(line, w);
    if line.len() < w {
        assert(c == seq![line]);
    } else {
        let rest = line.subrange(w as int, line.len() as int);
        lemma_chunks_narrow(rest, w);
        assert(c == seq![line.subrange(0, w as int)] + chunks(rest, w));
        assert forall|i: int| 0 <= i < c.len() implies (#[trigger] c[i]).len() <= w && no_newline(
            c[i],
        ) by {
            if i > 0 {
                assert(c[i] == chunks(rest, w)[i - 1]);
            }
        }
    }
}

proof fn lemma_shrink_pieces(s: Seq<u8>, w: nat)
    requires
        all_lines_cuttable(s, w),
    ensures
        shrunk_text(s, w) == terminated(shrink_pieces(s, w)),
        narrow_pieces(shrink_pieces(s, w), w),
    decreases s.len(),
{
    if s.len() == 0 {
        lemma_shrunk_text_empty(s, w);
    } else {
        lemma_newline_index_bounds(s);
        lemma_text_lines_unfold(s, w);
        lemma_shrunk_text_unfold(s, w);
        let line = first_line(s);
        let rest = after_line(s);
        lemma_shrink_pieces(rest, w);
        lemma_first_line_no_newline(s);
        let head = line_pieces(line, w);
        lemma_terminated_append(head, shrink_pieces(rest, w));
        if line.len() > w {
            lemma_chunks_narrow(line, w);
        }
        let all = head + shrink_pieces(rest, w);
        assert forall|i: int| 0 <= i < all.len() implies (#[trigger] all[i]).len() <= w
            && no_newline(all[i]) by {
            if i >= head.len() {
                assert(all[i] == shrink_pieces(rest, w)[i - head.len()]);
            } else {
                assert(all[i] == head[i]);
            }
        }
    }
}

proof fn lemma_lines_of_terminated(ps: Seq<Seq<u8>>, w: nat)
    requires
        narrow_pieces(ps, w),
    ensures
        forall|i: int|
            0 <= i < text_lines(terminated(ps)).len() ==> (#[trigger] text_lines(
                terminated(ps),
            )[i]).len() <= w,
    decreases ps.len(),
{
    let s = terminated(ps);
    if ps.len() > 0 {
        let p = ps[0];
        let rest = ps.drop_first();
        assert(narrow_pieces(rest, w)) by {
            assert forall|i: int| 0 <= i < rest.len() implies (#[trigger] rest[i]).len() <= w
                && no_newline(rest[i]) by {
                assert(rest[i] == ps[i + 1]);
            }
        }
        lemma_lines_of_terminated(rest, w);
        assert(p.len() <= w && no_newline(p));
        assert(s == p + seq![10u8] + terminated(rest));
        assert(s[p.len() as int] == 10u8);
        assert forall|j: int| 0 <= j < p.len() implies s[j] != 10u8 by {
            assert(s[j] == p[j]);
        }
        lemma_newline_index_is(s, p.len() as int);
        assert(after_line(s) =~= terminated(rest));
        assert(first_line(s).len() <= p.len());
        let ls = text_lines(s);
        assert(ls == seq![first_line(s)] + text_lines(terminated(rest)));
        assert forall|i: int| 0 <= i < ls.len() implies (#[trigger] ls[i]).len() <= w by {
            if i > 0 {
                assert(ls[i] == text_lines(terminated(rest))[i - 1]);
            }
        }
    } else {
        assert(text_lines(s) =~= Seq::<Seq<u8>>::empty());
    }
}

/// Every line of what `shrink` gives is at most `width` bytes long.
pub proof fn law_shrunk_lines_fit(text: Seq<u8>, width: nat)
    requires
        all_lines_cuttable(text, width),
    ensures
        forall|i: int|
            0 <= i < text_lines(shrunk_text(text, width)).len() ==> (#[trigger] text_lines(
                shrunk_text(text, width),
            )[i]).len() <= width,
{
    lemma_shrink_pieces(text, width);
    lemma_lines_of_terminated(shrink_pieces(text, width), width);
}

/// A byte string without a carriage return byte.
pub open spec fn no_cr(p: Seq<u8>) -> bool {
    forall|j: int| 0 <= j < p.len() ==> p[j] != 13u8
}

proof fn lemma_chunks_no_cr(line: Seq<u8>, w: nat)
    requires
        w > 0,
        no_cr(line),
    ensures
        forall|i: int| 0 <= i < chunks(line, w).len() ==> no_cr(#[trigger] chunks(line, w)[i]),
    decreases line.len(),
{
    let c = chunks(line, w);
    if line.len() >= w {
        let rest = line.subrange(w as int, line.len() as int);
        lemma_chunks_no_cr(rest, w);
        assert(c == seq![line.subrange(0, w as int)] + chunks(rest, w));
        assert forall|i: int| 0 <= i < c.len() implies no_cr(#[trigger] c[i]) by {
            if i > 0 {
                assert(c[i] == chunks(rest, w)[i - 1]);
            }
        }
    }
}

/// Without carriage returns in the text, no piece holds one.
proof fn lemma_shrink_pieces_no_cr(s: Seq<u8>, w: nat)
    requires
        all_lines_cuttable(s, w),
        no_cr(s),
    ensures
        forall|i: int| 0 <= i < shrink_pieces(s, w).len() ==> no_cr(#[trigger] shrink_pieces(s, w)[i]),
    decreases s.len(),
{
    if s.len() > 0 {
        lemma_newline_index_bounds(s);
        lemma_text_lines_unfold(s, w);
        let line = first_line(s);
        let rest = after_line(s);
        assert(no_cr(line));
        assert(no_cr(rest)) by {
            assert forall|j: int| 0 <= j < rest.len() implies rest[j] != 13u8 by {
                assert(rest[j] == s[j + newline_index(s) + 1]);
            }
        }
        lemma_shrink_pieces_no_cr(rest, w);
        let head = line_pieces(line, w);
        if line.len() > w {
            lemma_chunks_no_cr(line, w);
        }
        let all = head + shrink_pieces(rest, w);
        assert forall|i: int| 0 <= i < all.len() implies no_cr(#[trigger] all[i]) by {
            if i >= head.len() {
                assert(all[i] == shrink_pieces(rest, w)[i - head.len()]);
            } else {
                assert(all[i] == head[i]);
            }
        }
    }
}

/// Shrinking lines that already fit and hold neither newline nor carriage
/// return gives them back as they were.
proof fn lemma_shrink_terminated(ps: Seq<Seq<u8>>, w: nat)
    requires
        narrow_pieces(ps, w),
        forall|i: int| 0 <= i < ps.len() ==> no_cr(#[trigger] ps[i]),
    ensures
        shrunk_text(terminated(ps), w) == terminated(ps),
    decreases ps.len(),
{
    let s = terminated(ps);
    if ps.len() == 0 {
        lemma_shrunk_text_empty(s, w);
    } else {
        let p = ps[0];
        let rest = ps.drop_first();
        assert(narrow_pieces(rest, w) && forall|i: int| 0 <= i < rest.len() ==> no_cr(#[trigger] rest[i])) by {
            assert forall|i: int| 0 <= i < rest.len() implies (#[trigger] rest[i]).len() <= w
                && no_newline(rest[i]) && no_cr(rest[i]) by {
                assert(rest[i] == ps[i + 1]);
            }
        }
        lemma_shrink_terminated(rest, w);
        assert(p.len() <= w && no_newline(p) && no_cr(p));
        assert(s == p + seq![10u8] + terminated(rest));
        assert(s[p.len() as int] == 10u8);
        assert forall|j: int| 0 <= j < p.len() implies s[j] != 10u8 by {
            assert(s[j] == p[j]);
        }
        lemma_newline_index_is(s, p.len() as int);
        if p.len() > 0 {
            assert(s[p.len() - 1] == p[p.len() - 1]);
        }
        assert(first_line(s) =~= p);
        assert(after_line(s) =~= terminated(rest));
        lemma_shrunk_text_unfold(s, w);
        let c = seq![p];
        assert(c.drop_first() =~= Seq::<Seq<u8>>::empty());
        assert(line_pieces(p, w) == c);
        assert(terminated(c) == c[0] + seq![10u8] + terminated(c.drop_first()));
        assert(terminated(c.drop_first()) == Seq::<u8>::empty());
        assert(shrunk_line(p, w) == p + seq![10u8] + Seq::<u8>::empty());
        assert(shrunk_line(p, w) + terminated(rest) =~= s);
    }
}

/// Shrinking what `shrink` gave, with the same width, changes nothing: every
/// line already fits. (A carriage return before a newline would be taken
/// as part of the line ending the second time, so the text holds none.)
pub proof fn law_shrink_twice_is_once(text: Seq<u8>, width: nat)
    requires
        all_lines_cuttable(text, width),
        no_cr(text),
    ensures
        all_lines_cuttable(shrunk_text(text, width), width),
        shrunk_text(shrunk_text(text, width), width) == shrunk_text(text, width),
{
    law_shrunk_lines_fit(text, width);
    let out = shrunk_text(text, width);
    let ls = text_lines(out);
    assert forall|i: int| 0 <= i < ls.len() implies line_cuttable(#[trigger] ls[i], width) by {
        assert(ls[i].len() <= width);
    }
    lemma_shrink_pieces(text, width);
    lemma_shrink_pieces_no_cr(text, width);
    lemma_shrink_terminated(shrink_pieces(text, width), width);
}

/// Every line of a text has no newline in it.
proof fn lemma_lines_no_newline(s: Seq<u8>)
    ensures
        forall|i: int| 0 <= i < text_lines(s).len() ==> no_newline(#[trigger] text_lines(s)[i]),
    decreases s.len(),
{
    if s.len() > 0 {
        lemma_newline_index_bounds(s);
        lemma_first_line_no_newline(s);
        lemma_lines_no_newline(after_line(s));
        let ls = text_lines(s);
        assert(ls == seq![first_line(s)] + text_lines(after_line(s)));
        assert forall|i: int| 0 <= i < ls.len() implies no_newline(#[trigger] ls[i]) by {
            if i > 0 {
                assert(ls[i] == text_lines(after_line(s))[i - 1]);
            }
        }
    }
}

/// A non-empty line on its own is shrunk as that line.
proof fn lemma_shrunk_single_line(l: Seq<u8>, w: nat)
    requires
        l.len() > 0,
        no_newline(l),
    ensures
        shrunk_text(l, w) == shrunk_line(l, w),
{
    lemma_newline_index_is(l, l.len() as int);
    assert(first_line(l) == l);
    assert(after_line(l) == Seq::<u8>::empty());
    lemma_shrunk_text_unfold(l, w);
    lemma_shrunk_text_empty(after_line(l), w);
    assert(shrunk_line(l, w) + Seq::<u8>::empty() =~= shrunk_line(l, w));
}

/// Every line is shrunk on its own: when no line is empty, shrinking a text
/// is shrinking each of its lines as a text of its own, one after the other.
pub proof fn law_shrink_line_by_line(text: Seq<u8>, width: nat)
    requires
        forall|i: int| 0 <= i < text_lines(text).len() ==> (#[trigger] text_lines(text)[i]).len() > 0,
    ensures
        shrunk_text(text, width) == concat(
            text_lines(text).map_values(|l: Seq<u8>| shrunk_text(l, width)),
        ),
{
    let ls = text_lines(text);
    lemma_lines_no_newline(text);
    let f = |l: Seq<u8>| shrunk_line(l, width);
    let g = |l: Seq<u8>| shrunk_text(l, width);
    assert forall|i: int| 0 <= i < ls.len() implies #[trigger] ls.map_values(f)[i] == ls.map_values(g)[i] by {
        lemma_shrunk_single_line(ls[i], width);
    }
    assert(ls.map_values(f) =~= ls.map_values(g));
}

} // verus!
