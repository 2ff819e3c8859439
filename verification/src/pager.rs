//! The pager: lines of a text cut to the terminal's width, and the
//! scrolling state that answers the keys pressed while paging.

use vstd::prelude::*;
use vstd::utf8::*;
use crate::lines::{
    after_line, all_lines_cuttable, check_all_lines_cuttable, chunks, concat, first_line,
    law_chunks_reassemble, lemma_newline_index_bounds, lemma_text_lines_unfold, next_line,
    text_lines,
};
use crate::text::{lemma_after_ascii, lemma_valid_between, push_range, string_from_utf8};

verus! {

/// The screen lines of one text line: itself when it fits in `w` bytes,
/// otherwise its pieces of `w` bytes.
pub open spec fn line_screen_pieces(line: Seq<u8>, w: nat) -> Seq<Seq<u8>> {
    if line.len() > w {
        chunks(line, w)
    } else {
        seq![line]
    }
}

/// The screen lines of a whole text, in order.
pub open spec fn screen_lines(s: Seq<u8>, w: nat) -> Seq<Seq<u8>>
    decreases s.len(),
{
    if s.len() == 0 {
        Seq::empty()
    } else {
        proof {
            lemma_newline_index_bounds(s);
        }
        line_screen_pieces(first_line(s), w) + screen_lines(after_line(s), w)
    }
}

/// A byte range of valid UTF-8 that starts and ends on characters, as a string.
fn range_string(t: &[u8], i: usize, j: usize) -> (s: String)
    requires
        i <= j <= t@.len(),
        valid_utf8(t@),
        i == t@.len() || !is_continuation_byte(t@[i as int]),
        j == t@.len() || !is_continuation_byte(t@[j as int]),
    ensures
        encode_utf8(s@) == t@.subrange(i as int, j as int),
{
    let mut v: Vec<u8> = Vec::new();
    push_range(&mut v, t, i, j);
    proof {
        lemma_valid_between(t@, i as int, j as int);
        assert(v@ =~= t@.subrange(i as int, j as int));
    }
    match string_from_utf8(v) {
        Some(s) => s,
        None => {
            assert(false);
            String::new()
        },
    }
}

/// Whether [`screen_lines_of`] is defined: every line longer than `width`
/// bytes can be cut every `width` bytes without splitting a character.
pub fn can_cut_to_screen(width: usize, text: &str) -> (ok: bool)
    ensures
        ok == all_lines_cuttable(encode_utf8(text@), width as nat),
{
    check_all_lines_cuttable(text.as_bytes(), width)
}

/// The lines the pager shows for `text` on a terminal `width` bytes wide:
/// each line of the text, and in place of a line longer than `width` its
/// pieces of `width` bytes (the last piece holds the rest, possibly nothing).
pub fn screen_lines_of(width: usize, text: &str) -> (res: Vec<String>)
    requires
        all_lines_cuttable(encode_utf8(text@), width as nat),
    ensures
        res@.len() == screen_lines(encode_utf8(text@), width as nat).len(),
        forall|i: int|
            0 <= i < res@.len() ==> encode_utf8(#[trigger] res@[i]@) == screen_lines(
                encode_utf8(text@),
                width as nat,
            )[i],
{
    let t = text.as_bytes();
    let ghost w = width as nat;
    let ghost all = screen_lines(t@, w);
    proof {
        vstd::utf8::encode_utf8_valid_utf8(text@);
        assert(t@.subrange(0, t@.len() as int) =~= t@);
        assert(all.subrange(0, all.len() as int) =~= all);
    }
    let mut res: Vec<String> = Vec::new();
    let mut start: usize = 0;
    while start < t.len()
        invariant
            start <= t@.len(),
            valid_utf8(t@),
            t@ == encode_utf8(text@),
            w == width as nat,
            all == screen_lines(t@, w),
            res@.len() <= all.len(),
            all.subrange(res@.len() as int, all.len() as int) == screen_lines(
                t@.subrange(start as int, t@.len() as int),
                w,
            ),
            all_lines_cuttable(t@.subrange(start as int, t@.len() as int), w),
            forall|i: int| 0 <= i < res@.len() ==> encode_utf8(#[trigger] res@[i]@) == all[i],
            start == t@.len() || !is_continuation_byte(t@[start as int]),
        decreases t@.len() - start,
    {
        let ghost s = t@.subrange(start as int, t@.len() as int);
        let (e, n) = next_line(t, start);
        let ghost line = t@.subrange(start as int, e as int);
        let ghost after = screen_lines(t@.subrange(n as int, t@.len() as int), w);
        proof {
            lemma_text_lines_unfold(s, w);
            lemma_newline_index_bounds(s);
            assert(screen_lines(s, w) == line_screen_pieces(line, w) + after);
            if n < t@.len() {
                lemma_after_ascii(t@, n - 1);
            }
        }
        if e - start > width {
            let mut pos = start;
            while e - pos >= width
                invariant
                    start <= pos <= e <= n <= t@.len(),
                    width > 0,
                    valid_utf8(t@),
                    w == width as nat,
                    all == screen_lines(t@, w),
                    crate::lines::cuts_on_char_starts(t@.subrange(pos as int, e as int), w),
                    res@.len() <= all.len(),
                    all.subrange(res@.len() as int, all.len() as int) == chunks(
                        t@.subrange(pos as int, e as int),
                        w,
                    ) + after,
                    forall|i: int| 0 <= i < res@.len() ==> encode_utf8(#[trigger] res@[i]@) == all[i],
                    pos == t@.len() || !is_continuation_byte(t@[pos as int]),
                    e == t@.len() || !is_continuation_byte(t@[e as int]),
                decreases e - pos,
            {
                let ghost rest = t@.subrange(pos as int, e as int);
                let ghost k = res@.len() as int;
                proof {
                    assert(rest.subrange(0, w as int) =~= t@.subrange(pos as int, pos + w));
                    assert(rest.subrange(w as int, rest.len() as int) =~= t@.subrange(
                        pos + w,
                        e as int,
                    ));
                    let c = chunks(rest, w);
                    assert(c == seq![t@.subrange(pos as int, pos + w)] + chunks(
                        t@.subrange(pos + w, e as int),
                        w,
                    ));
                    if pos + w < e {
                        assert(rest[w as int] == t@[pos + w]);
                    }
                    assert(all.subrange(k, all.len() as int).len() >= 1);
                    assert(all[k] == all.subrange(k, all.len() as int)[0]);
                    assert(all.subrange(k + 1, all.len() as int) =~= all.subrange(
                        k,
                        all.len() as int,
                    ).drop_first());
                }
                let piece = range_string(t, pos, pos + width);
                res.push(piece);
                pos = pos + width;
            }
            let ghost k = res@.len() as int;
            proof {
                let rest = t@.subrange(pos as int, e as int);
                assert(chunks(rest, w) == seq![rest]);
                assert(all.subrange(k, all.len() as int).len() >= 1);
                assert(all[k] == all.subrange(k, all.len() as int)[0]);
                assert(all.subrange(k + 1, all.len() as int) =~= all.subrange(
                    k,
                    all.len() as int,
                ).drop_first());
            }
            let piece = range_string(t, pos, e);
            res.push(piece);
        } else {
            let ghost k = res@.len() as int;
            proof {
                assert(line_screen_pieces(line, w) == seq![line]);
                assert(all.subrange(k, all.len() as int).len() >= 1);
                assert(all[k] == all.subrange(k, all.len() as int)[0]);
                assert(all.subrange(k + 1, all.len() as int) =~= all.subrange(
                    k,
                    all.len() as int,
                ).drop_first());
            }
            let piece = range_string(t, start, e);
            res.push(piece);
        }
        start = n;
    }
    proof {
        assert(screen_lines(t@.subrange(start as int, t@.len() as int), w) =~= Seq::<
            Seq<u8>,
        >::empty());
    }
    res
}

pub proof fn lemma_concat_append(a: Seq<Seq<u8>>, b: Seq<Seq<u8>>)
    ensures
        concat(a + b) == concat(a) + concat(b),
    decreases a.len(),
{
    if a.len() == 0 {
        assert(a + b =~= b);
        assert(Seq::<u8>::empty() + concat(b) =~= concat(b));
    } else {
        lemma_concat_append(a.drop_first(), b);
        assert((a + b).drop_first() =~= a.drop_first() + b);
        assert((a + b)[0] == a[0]);
    }
}

/// The pager loses nothing and adds nothing: its screen lines, put back
/// together, are the text's lines put together; and each screen line fits
/// the width.
pub proof fn law_screen_lines_keep_text(text: Seq<u8>, width: nat)
    requires
        all_lines_cuttable(text, width),
    ensures
        concat(screen_lines(text, width)) == concat(text_lines(text)),
        forall|i: int|
            0 <= i < screen_lines(text, width).len() ==> (#[trigger] screen_lines(text, width)[i]).len()
                <= width,
    decreases text.len(),
{
    let sl = screen_lines(text, width);
    if text.len() > 0 {
        lemma_newline_index_bounds(text);
        lemma_text_lines_unfold(text, width);
        let line = first_line(text);
        let rest = after_line(text);
        law_screen_lines_keep_text(rest, width);
        let head = line_screen_pieces(line, width);
        lemma_concat_append(head, screen_lines(rest, width));
        let ls = text_lines(text);
        assert(ls.drop_first() =~= text_lines(rest));
        assert(concat(ls) == ls[0] + concat(ls.drop_first()));
        if line.len() > width {
            law_chunks_reassemble(line, width);
        } else {
            assert(head == seq![line]);
            assert(head.drop_first() =~= Seq::<Seq<u8>>::empty());
            assert(concat(head) == head[0] + concat(head.drop_first()));
            assert(line + Seq::<u8>::empty() =~= line);
        }
        assert(sl == head + screen_lines(rest, width));
        assert forall|i: int| 0 <= i < sl.len() implies (#[trigger] sl[i]).len() <= width by {
            if i >= head.len() {
                assert(sl[i] == screen_lines(rest, width)[i - head.len()]);
            } else {
                assert(sl[i] == head[i]);
                if line.len() > width {
                    if i < head.len() - 1 {
                        assert(head[i].len() == width);
                    } else {
                        assert(head[i] == head.last());
                    }
                } else {
                }
            }
        }
    } else {
        assert(text_lines(text) =~= Seq::<Seq<u8>>::empty());
        assert(sl =~= Seq::<Seq<u8>>::empty());
    }
}

/// A key, as the pager tells keys apart.
pub enum PagerKey {
    /// Ctrl+C, Ctrl+Z or `q`.
    Quit,
    /// Arrow down or page down.
    Down,
    /// Arrow up or page up.
    Up,
    /// Anything else.
    Other,
}

/// What the pager does after a key.
#[derive(PartialEq, Eq, Structural, Debug)]
pub enum ScrollAction {
    /// Leave the pager.
    Stop,
    /// Scroll the screen up by one row and show screen line `i` in the bottom row.
    ShowBottom(usize),
    /// Scroll the screen down by one row and show screen line `i` in the top row.
    ShowTop(usize),
    /// Nothing to do.
    Stay,
}

/// The pager's position: `start` is the screen line in the top row, `index`
/// the one in the bottom row of a terminal `height` rows high; `count` is
/// the number of screen lines of the text.
pub struct Scroll {
    pub start: usize,
    pub index: usize,
    pub count: usize,
    pub height: usize,
}

impl Scroll {
    /// The bottom row is `height - 1` rows below the top row.
    pub open spec fn wf(&self) -> bool {
        &&& self.height >= 1
        &&& self.index == self.start + self.height - 1
    }

    /// The key can be handled: scrolling down computes `count - 1 + height - 1`,
    /// which needs at least one screen line and no overflow.
    pub open spec fn can_handle(&self, key: PagerKey) -> bool {
        key is Down ==> (self.count >= 1 && self.count - 1 + self.height <= usize::MAX)
    }

    /// The position and action after `key`.
    pub open spec fn after(&self, key: PagerKey) -> (Scroll, ScrollAction) {
        match key {
            PagerKey::Quit => (*self, ScrollAction::Stop),
            PagerKey::Down => if self.index < self.count - 1 + self.height - 1 {
                (
                    Scroll { start: (self.start + 1) as usize, index: (self.index + 1) as usize, ..*self },
                    ScrollAction::ShowBottom((self.index + 1) as usize),
                )
            } else {
                (*self, ScrollAction::Stay)
            },
            PagerKey::Up => if self.start > 0 {
                (
                    Scroll { start: (self.start - 1) as usize, index: (self.index - 1) as usize, ..*self },
                    ScrollAction::ShowTop((self.start - 1) as usize),
                )
            } else {
                (*self, ScrollAction::Stay)
            },
            PagerKey::Other => (*self, ScrollAction::Stay),
        }
    }

    /// The first screen: screen lines `0` to `height - 1` are shown.
    pub fn new(count: usize, height: usize) -> (s: Scroll)
        requires
            height >= 1,
        ensures
            s.wf(),
            s == (Scroll { start: 0, index: (height - 1) as usize, count, height }),
    {
        Scroll { start: 0, index: height - 1, count, height }
    }

    /// Answers a key.
    pub fn handle(&mut self, key: PagerKey) -> (act: ScrollAction)
        requires
            old(self).wf(),
            old(self).can_handle(key),
        ensures
            (*final(self), act) == old(self).after(key),
            final(self).wf(),
    {
        match key {
            PagerKey::Quit => ScrollAction::Stop,
            PagerKey::Down => {
                if self.index < self.count - 1 + self.height - 1 {
                    self.start = self.start + 1;
                    self.index = self.index + 1;
                    ScrollAction::ShowBottom(self.index)
                } else {
                    ScrollAction::Stay
                }
            },
            PagerKey::Up => {
                if self.start > 0 {
                    self.start = self.start - 1;
                    self.index = self.index - 1;
                    ScrollAction::ShowTop(self.start)
                } else {
                    ScrollAction::Stay
                }
            },
            PagerKey::Other => ScrollAction::Stay,
        }
    }
}

/// Scrolling up right after scrolling down comes back to the same position.
pub proof fn law_up_undoes_down(s: Scroll)
    requires
        s.wf(),
        s.can_handle(PagerKey::Down),
        s.after(PagerKey::Down).1 != ScrollAction::Stay,
    ensures
        s.after(PagerKey::Down).0.wf(),
        s.after(PagerKey::Down).0.after(PagerKey::Up).0 == s,
{
}

/// Scrolling down right after scrolling up comes back to the same position.
pub proof fn law_down_undoes_up(s: Scroll)
    requires
        s.wf(),
        s.count >= 1,
        s.count - 1 + s.height <= usize::MAX,
        s.index < s.count - 1 + s.height,
        s.after(PagerKey::Up).1 != ScrollAction::Stay,
    ensures
        s.after(PagerKey::Up).0.wf(),
        s.after(PagerKey::Up).0.after(PagerKey::Down).0 == s,
{
}

/// Quitting stops the pager where it stands, other keys change nothing;
/// Down scrolls by exactly one line until the last line reaches the top
/// row and then stays; Up scrolls back by exactly one line until the first
/// line is at the top and then stays; the screen always spans `height`
/// lines.
pub proof fn law_pager_keys(s: Scroll)
    requires
        s.wf(),
        s.count >= 1,
        s.count - 1 + s.height <= usize::MAX,
    ensures
        s.after(PagerKey::Quit) == (s, ScrollAction::Stop),
        s.after(PagerKey::Other) == (s, ScrollAction::Stay),
        s.start < s.count - 1 ==> s.after(PagerKey::Down) == (
            Scroll { start: (s.start + 1) as usize, index: (s.index + 1) as usize, ..s },
            ScrollAction::ShowBottom((s.index + 1) as usize),
        ),
        s.start >= s.count - 1 ==> s.after(PagerKey::Down) == (s, ScrollAction::Stay),
        s.start > 0 ==> s.after(PagerKey::Up) == (
            Scroll { start: (s.start - 1) as usize, index: (s.index - 1) as usize, ..s },
            ScrollAction::ShowTop((s.start - 1) as usize),
        ),
        s.start == 0 ==> s.after(PagerKey::Up) == (s, ScrollAction::Stay),
        s.after(PagerKey::Down).0.wf() && s.after(PagerKey::Up).0.wf(),
        s.after(PagerKey::Down).0.count == s.count && s.after(PagerKey::Up).0.height == s.height,
{
}

} // verus!
