//! The shell's line editor: how each key changes the line being typed and
//! where the cursor stands, until Enter hands back the line's words.

use vstd::prelude::*;
use vstd::utf8::*;
use crate::text::{
    lemma_encode_append, lemma_encode_newline, split_whitespace, split_ws, string_insert, string_pop,
    string_push, string_remove,
};

verus! {

broadcast use vstd::utf8::encode_utf8_valid_utf8;

/// A key, as the line editor tells keys apart.
#[derive(PartialEq, Eq, Structural, Debug, Clone, Copy)]
pub enum EditKey {
    /// Ctrl+Z: give up.
    Quit,
    /// A character key.
    Char(char),
    Left,
    Right,
    Home,
    End,
    Enter,
    Backspace,
    /// Any other key or event.
    Other,
}

/// What the caller does after a key.
pub enum EditAction {
    /// Leave the program (Ctrl+Z).
    Quit,
    /// Ring the bell, and leave the screen as it is.
    Bell,
    /// Draw the prompt, the line and the cursor anew.
    Redraw,
    /// Ring the bell, then draw the prompt, the line and the cursor anew.
    BellRedraw,
    /// The line is complete: these are its words.
    Done(Vec<String>),
}

/// The line being typed; `initial` is the terminal column just after the
/// prompt and `cursor` the column of the cursor.
pub struct LineEditor {
    pub input: String,
    pub initial: u16,
    pub cursor: u16,
}

/// The bytes of the line.
pub open spec fn line_bytes(e: LineEditor) -> Seq<u8> {
    encode_utf8(e.input@)
}

/// The editor's state, in plain values: the line's characters and the two columns.
pub struct EditorModel {
    pub line: Seq<char>,
    pub initial: u16,
    pub cursor: u16,
}

/// What a key does, in the editor's model: the new model and what to do.
pub enum ModelAction {
    Quit,
    Bell,
    Redraw,
    BellRedraw,
    Done(Seq<Seq<char>>),
}

impl LineEditor {
    pub open spec fn model(&self) -> EditorModel {
        EditorModel { line: self.input@, initial: self.initial, cursor: self.cursor }
    }
}

impl EditorModel {
    /// The cursor never stands left of the prompt, and the line is no
    /// longer than a `String` can be.
    pub open spec fn wf(self) -> bool {
        &&& self.initial <= self.cursor
        &&& self.bytes().len() <= isize::MAX
    }

    pub open spec fn bytes(self) -> Seq<u8> {
        encode_utf8(self.line)
    }

    /// The cursor's byte position in the line.
    pub open spec fn rel(self) -> int {
        self.cursor - self.initial
    }

    /// The key can be handled without a panic: insertions and deletions fall
    /// on character starts, and no column or length overflows a `u16`.
    pub open spec fn can_handle(self, key: EditKey) -> bool {
        match key {
            EditKey::Char(_) => {
                &&& is_char_boundary(self.bytes(), self.rel())
                &&& self.cursor < u16::MAX
                &&& self.bytes().len() + 4 <= isize::MAX
            },
            EditKey::Right => self.bytes().len() + 2 <= u16::MAX,
            EditKey::Enter => self.bytes().len() + 1 <= isize::MAX,
            EditKey::End => self.bytes().len() % 0x10000 + self.initial <= u16::MAX,
            EditKey::Backspace => self.cursor > self.initial ==> {
                &&& self.bytes().len() <= u16::MAX
                &&& self.rel() != self.bytes().len() ==> {
                    &&& self.rel() - 1 < self.bytes().len()
                    &&& is_char_boundary(self.bytes(), self.rel() - 1)
                }
            },
            _ => true,
        }
    }

    /// The bytes of the line after inserting `c` at the cursor.
    pub open spec fn inserted(self, c: char) -> Seq<u8> {
        self.bytes().subrange(0, self.rel()) + encode_utf8(seq![c]) + self.bytes().subrange(
            self.rel(),
            self.bytes().len() as int,
        )
    }

    /// The bytes of the line after deleting the character before the cursor.
    pub open spec fn deleted(self) -> Seq<u8> {
        let b = self.bytes();
        let at = self.rel() - 1;
        b.subrange(0, at) + b.subrange(
            at + length_of_first_scalar(b.subrange(at, b.len() as int)),
            b.len() as int,
        )
    }

    /// The effect of a key. After a key that edits the line, the new line is
    /// given by its bytes (see `inserted` and `deleted`).
    pub open spec fn after(self, key: EditKey) -> (Seq<u8>, u16, ModelAction) {
        let b = self.bytes();
        match key {
            EditKey::Quit => (b, self.cursor, ModelAction::Quit),
            EditKey::Char(c) => (self.inserted(c), (self.cursor + 1) as u16, ModelAction::Redraw),
            EditKey::Left => if self.cursor > self.initial {
                (b, (self.cursor - 1) as u16, ModelAction::Redraw)
            } else {
                (b, self.cursor, ModelAction::Bell)
            },
            EditKey::Right => if self.cursor < b.len() + 2 {
                (b, (self.cursor + 1) as u16, ModelAction::Redraw)
            } else {
                (b, self.cursor, ModelAction::Bell)
            },
            EditKey::Home => (b, self.initial, ModelAction::Redraw),
            EditKey::End => (b, (b.len() % 0x10000 + self.initial) as u16, ModelAction::Redraw),
            EditKey::Enter => (
                b + seq![10u8],
                self.cursor,
                ModelAction::Done(split_ws(self.line.push('\n'))),
            ),
            EditKey::Backspace => if self.cursor > self.initial {
                if self.rel() != b.len() {
                    (self.deleted(), (self.cursor - 1) as u16, ModelAction::Redraw)
                } else {
                    (encode_utf8(self.line.drop_last()), (self.cursor - 1) as u16, ModelAction::Redraw)
                }
            } else {
                (b, self.cursor, ModelAction::BellRedraw)
            },
            EditKey::Other => (b, self.cursor, ModelAction::BellRedraw),
        }
    }
}

/// The action in the model that an action stands for.
pub open spec fn action_model(a: EditAction) -> ModelAction {
    match a {
        EditAction::Quit => ModelAction::Quit,
        EditAction::Bell => ModelAction::Bell,
        EditAction::Redraw => ModelAction::Redraw,
        EditAction::BellRedraw => ModelAction::BellRedraw,
        EditAction::Done(words) => ModelAction::Done(words.deep_view()),
    }
}

impl LineEditor {
    /// An empty line with the cursor just after the prompt.
    pub fn new(initial: u16) -> (e: LineEditor)
        ensures
            e.input@ == Seq::<char>::empty(),
            e.initial == initial,
            e.cursor == initial,
            e.model().wf(),
    {
        LineEditor { input: String::new(), initial, cursor: initial }
    }

    /// Whether [`LineEditor::handle`] can take `key` (see `EditorModel::can_handle`).
    pub fn can_handle(&self, key: EditKey) -> (ok: bool)
        requires
            self.model().wf(),
        ensures
            ok == self.model().can_handle(key),
    {
        let len = self.input.as_str().len();
        proof {
            assert(len == self.model().bytes().len());
        }
        match key {
            EditKey::Char(_) => {
                let rel = (self.cursor - self.initial) as usize;
                let st = self.input.as_str();
                let b = rel <= len && st.is_char_boundary(rel);
                b && self.cursor < u16::MAX && len + 4 <= isize::MAX as usize
            },
            EditKey::Right => len <= 0xfffd,
            EditKey::Enter => len < isize::MAX as usize,
            EditKey::End => (len % 0x10000) + (self.initial as usize) <= 0xffff,
            EditKey::Backspace => {
                if self.cursor > self.initial {
                    let rel = (self.cursor - self.initial) as usize;
                    len <= 0xffff && (rel == len || (rel - 1 < len
                        && self.input.as_str().is_char_boundary(rel - 1)))
                } else {
                    true
                }
            },
            _ => true,
        }
    }

    /// Answers a key: changes the line and the cursor, and says what to do.
    pub fn handle(&mut self, key: EditKey) -> (act: EditAction)
        requires
            old(self).model().wf(),
            old(self).model().can_handle(key),
        ensures
            final(self).model().wf(),
            final(self).initial == old(self).initial,
            line_bytes(*final(self)) == old(self).model().after(key).0,
            final(self).cursor == old(self).model().after(key).1,
            action_model(act) == old(self).model().after(key).2,
    {
        let ghost m = self.model();
        let len = self.input.as_str().len();
        match key {
            EditKey::Quit => EditAction::Quit,
            EditKey::Char(c) => {
                let rel = (self.cursor - self.initial) as usize;
                string_insert(&mut self.input, rel, c);
                proof {
                    lemma_encode_char_len(c);
                }
                self.cursor = self.cursor + 1;
                EditAction::Redraw
            },
            EditKey::Left => {
                if self.cursor > self.initial {
                    self.cursor = self.cursor - 1;
                    EditAction::Redraw
                } else {
                    EditAction::Bell
                }
            },
            EditKey::Right => {
                if (self.cursor as usize) < len + 2 {
                    self.cursor = self.cursor + 1;
                    EditAction::Redraw
                } else {
                    EditAction::Bell
                }
            },
            EditKey::Home => {
                self.cursor = self.initial;
                EditAction::Redraw
            },
            EditKey::End => {
                self.cursor = (len % 0x10000) as u16 + self.initial;
                EditAction::Redraw
            },
            EditKey::Enter => {
                string_push(&mut self.input, '\n');
                let words = split_whitespace(self.input.as_str());
                proof {
                    lemma_encode_append(m.line, seq!['\n']);
                    lemma_encode_newline();
                    assert(m.line.push('\n') =~= m.line + seq!['\n']);
                }
                EditAction::Done(words)
            },
            EditKey::Backspace => {
                if self.cursor > self.initial {
                    let rel = (self.cursor - self.initial) as usize;
                    if rel != len {
                        proof {
                            lemma_first_scalar_fits(m.bytes(), rel - 1);
                        }
                        string_remove(&mut self.input, rel - 1);
                    } else {
                        proof {
                            if m.line.len() > 0 {
                                lemma_encode_append(m.line.drop_last(), seq![m.line.last()]);
                                assert(m.line.drop_last() + seq![m.line.last()] =~= m.line);
                            }
                        }
                        string_pop(&mut self.input);
                    }
                    self.cursor = self.cursor - 1;
                    EditAction::Redraw
                } else {
                    EditAction::BellRedraw
                }
            },
            EditKey::Other => EditAction::BellRedraw,
        }
    }
}

/// The character that starts at a character boundary before the end of
/// valid UTF-8 lies wholly inside it.
pub proof fn lemma_first_scalar_fits(b: Seq<u8>, at: int)
    requires
        valid_utf8(b),
        0 <= at < b.len(),
        is_char_boundary(b, at),
    ensures
        1 <= length_of_first_scalar(b.subrange(at, b.len() as int)) <= b.len() - at,
{
    vstd::utf8::valid_utf8_split(b, at);
    let rest = b.subrange(at, b.len() as int);
    assert(rest.len() > 0);
    assert(valid_first_scalar(rest));
}

/// Deleting the character before the cursor undoes typing a character: the
/// line and the cursor are as they were.
pub proof fn law_backspace_undoes_typing(m: EditorModel, c: char)
    requires
        m.wf(),
        m.can_handle(EditKey::Char(c)),
        m.bytes().len() + 4 <= u16::MAX,
    ensures
        ({
            let (b2, cur2, _) = m.after(EditKey::Char(c));
            let m2 = EditorModel { line: decode_utf8(b2), initial: m.initial, cursor: cur2 };
            &&& encode_utf8(m2.line) == b2
            &&& m2.wf()
            &&& m2.can_handle(EditKey::Backspace)
            &&& m2.after(EditKey::Backspace).0 == m.bytes()
            &&& m2.after(EditKey::Backspace).1 == m.cursor
        }),
{
    let b = m.bytes();
    let r = m.rel();
    let e = encode_utf8(seq![c]);
    lemma_encode_char_len(c);
    let b2 = m.inserted(c);
    let pre = b.subrange(0, r);
    let post = b.subrange(r, b.len() as int);
    vstd::utf8::valid_utf8_split(b, r);
    assert(b2 == pre + e + post);
    // the new line is valid UTF-8 and decodes to the characters around `c`
    let cs = decode_utf8(pre) + seq![c] + decode_utf8(post);
    vstd::utf8::decode_utf8_encode_utf8(pre);
    vstd::utf8::decode_utf8_encode_utf8(post);
    lemma_encode_append(decode_utf8(pre) + seq![c], decode_utf8(post));
    lemma_encode_append(decode_utf8(pre), seq![c]);
    assert(encode_utf8(cs) == b2);
    vstd::utf8::encode_utf8_decode_utf8(cs);
    let m2 = EditorModel { line: decode_utf8(b2), initial: m.initial, cursor: (m.cursor + 1) as u16 };
    assert(m2.bytes() == b2);
    assert(m2.rel() == r + 1);
    // the character typed starts at byte `r` of the new line
    let tail = b2.subrange(r, b2.len() as int);
    assert(tail =~= e + post);
    lemma_encode_append(seq![c], decode_utf8(post));
    assert(tail == encode_utf8(seq![c] + decode_utf8(post)));
    vstd::utf8::encode_utf8_first_scalar(seq![c] + decode_utf8(post));
    assert((seq![c] + decode_utf8(post))[0] == c);
    let sc = seq![c];
    assert(sc.drop_first() =~= Seq::<char>::empty());
    assert(e == encode_scalar(c as u32) + encode_utf8(sc.drop_first()));
    assert(e =~= encode_scalar(c as u32));
    assert(length_of_first_scalar(tail) == e.len());
    // `r` is a character boundary of the new line
    vstd::utf8::encode_utf8_valid_utf8(cs);
    vstd::utf8::encode_utf8_valid_utf8(decode_utf8(pre));
    assert(b2.subrange(0, r) =~= pre);
    lemma_boundary_after_prefix(decode_utf8(pre), seq![c] + decode_utf8(post));
    assert(decode_utf8(pre) + (seq![c] + decode_utf8(post)) =~= cs);
    if m2.rel() != b2.len() {
        assert(b2.subrange(0, r) + b2.subrange(r + e.len(), b2.len() as int) =~= b);
    } else {
        assert(e.len() == 1);
        assert(r == b.len());
        assert(post =~= Seq::<u8>::empty());
        assert(decode_utf8(post) =~= Seq::<char>::empty());
        assert(cs.drop_last() =~= decode_utf8(pre));
        assert(pre =~= b);
    }
}

/// The end of the encoding of a prefix is a character boundary of the
/// encoding of the whole.
pub proof fn lemma_boundary_after_prefix(a: Seq<char>, rest: Seq<char>)
    ensures
        is_char_boundary(encode_utf8(a + rest), encode_utf8(a).len() as int),
    decreases a.len(),
{
    vstd::utf8::encode_utf8_valid_utf8(a + rest);
    if a.len() == 0 {
        assert(encode_utf8(a) =~= Seq::<u8>::empty());
    } else {
        let whole = a + rest;
        lemma_boundary_after_prefix(a.drop_first(), rest);
        assert(whole.drop_first() =~= a.drop_first() + rest);
        vstd::utf8::encode_utf8_first_scalar(whole);
        assert(whole[0] == a[0]);
        assert(encode_utf8(whole) == encode_scalar(a[0] as u32) + encode_utf8(whole.drop_first()));
        assert(pop_first_scalar(encode_utf8(whole)) =~= encode_utf8(whole.drop_first()));
        assert(encode_utf8(a) == encode_scalar(a[0] as u32) + encode_utf8(a.drop_first()));
        vstd::utf8::encode_utf8_valid_utf8(whole.drop_first());
    }
}

/// A character takes one to four bytes.
pub proof fn lemma_encode_char_len(c: char)
    ensures
        1 <= encode_utf8(seq![c]).len() <= 4,
{
    let s = seq![c];
    assert(s.drop_first() =~= Seq::<char>::empty());
    assert(encode_utf8(s) == encode_scalar(c as u32) + encode_utf8(s.drop_first()));
}

/// What the keys do: Home puts the cursor just after the prompt and End
/// after the line; Left and Right move the cursor by one column, and only
/// Left, Right and the character keys move it at all besides Home, End and
/// Backspace; a typed character goes in at the cursor and moves the cursor
/// on; only the character keys, Backspace and Enter change the line; Enter
/// adds a newline and hands back the line's words; Ctrl+Z leaves with the
/// line untouched; at the prompt, Left and Backspace only ring the bell.
pub proof fn law_editor_keys(m: EditorModel, c: char)
    requires
        m.wf(),
    ensures
        m.after(EditKey::Home).0 == m.bytes() && m.after(EditKey::Home).1 == m.initial,
        m.initial + m.bytes().len() <= u16::MAX ==> m.after(EditKey::End).1 == m.initial + m.bytes().len(),
        m.after(EditKey::End).0 == m.bytes(),
        m.cursor > m.initial ==> m.after(EditKey::Left).1 == m.cursor - 1 && m.after(EditKey::Left).0 == m.bytes(),
        m.cursor == m.initial ==> m.after(EditKey::Left) == (m.bytes(), m.cursor, ModelAction::Bell),
        m.cursor == m.initial ==> m.after(EditKey::Backspace) == (m.bytes(), m.cursor, ModelAction::BellRedraw),
        m.after(EditKey::Right).0 == m.bytes(),
        m.can_handle(EditKey::Right) ==> (m.after(EditKey::Right).1 == m.cursor || m.after(EditKey::Right).1
            == m.cursor + 1),
        m.can_handle(EditKey::Char(c)) ==> m.after(EditKey::Char(c)).1 == m.cursor + 1,
        m.can_handle(EditKey::Char(c)) ==> m.after(EditKey::Char(c)).0.subrange(0, m.rel()) == m.bytes().subrange(
            0,
            m.rel(),
        ),
        m.after(EditKey::Quit) == (m.bytes(), m.cursor, ModelAction::Quit),
        m.after(EditKey::Other) == (m.bytes(), m.cursor, ModelAction::BellRedraw),
        m.after(EditKey::Enter).0 == m.bytes().push(10u8),
        m.after(EditKey::Enter).1 == m.cursor,
        m.after(EditKey::Enter).2 == ModelAction::Done(split_ws(m.line.push('\n'))),
{
    let b = m.bytes();
    let r = m.rel();
    let e = encode_utf8(seq![c]);
    if m.can_handle(EditKey::Char(c)) {
        vstd::utf8::encode_utf8_valid_utf8(m.line);
        assert(0 <= r <= b.len());
        assert((b.subrange(0, r) + e + b.subrange(r, b.len() as int)).subrange(0, r) =~= b.subrange(0, r));
    }
}

/// Typing on the line never changes the cursor's column by more than one,
/// and only Enter, Ctrl+Z and the bell leave the screen to be drawn as it is.
pub proof fn law_editor_cursor_steps(m: EditorModel, key: EditKey)
    requires
        m.wf(),
        m.can_handle(key),
        !(key is Home || key is End),
    ensures
        m.after(key).1 == m.cursor || m.after(key).1 == m.cursor + 1 || m.after(key).1 == m.cursor - 1,
{
}

} // verus!
