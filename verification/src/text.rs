//! Text helpers shared by the utilities: equality of string slices,
//! decimal integer parsing and the like.

use vstd::prelude::*;
use vstd::utf8::*;

verus! {

broadcast use vstd::utf8::encode_utf8_decode_utf8;

/// Whether two string slices hold the same characters.
pub fn str_eq(a: &str, b: &str) -> (res: bool)
    ensures
        res == (a@ == b@),
{
    let ab = a.as_bytes();
    let bb = b.as_bytes();
    proof {
        assert(ab@ == encode_utf8(a@));
        assert(bb@ == encode_utf8(b@));
        assert(decode_utf8(ab@) == a@);
        assert(decode_utf8(bb@) == b@);
    }
    if ab.len() != bb.len() {
        return false;
    }
    let mut i: usize = 0;
    while i < ab.len()
        invariant
            ab@.len() == bb@.len(),
            i <= ab@.len(),
            forall|j: int| 0 <= j < i ==> ab@[j] == bb@[j],
            ab@ == encode_utf8(a@),
            bb@ == encode_utf8(b@),
        decreases ab@.len() - i,
    {
        if ab[i] != bb[i] {
            return false;
        }
        i = i + 1;
    }
    proof {
        assert(ab@ =~= bb@);
    }
    true
}


/// The bytes between two positions of a valid UTF-8 sequence form valid UTF-8
/// when neither position falls inside the encoding of a character.
pub proof fn lemma_valid_between(t: Seq<u8>, i: int, j: int)
    requires
        valid_utf8(t),
        0 <= i <= j <= t.len(),
        i == t.len() || !is_continuation_byte(t[i]),
        j == t.len() || !is_continuation_byte(t[j]),
    ensures
        valid_utf8(t.subrange(i, j)),
{
    is_char_boundary_start_end_of_seq(t);
    if i < t.len() {
        is_char_boundary_iff_not_is_continuation_byte(t, i);
    }
    valid_utf8_split(t, i);
    let u = t.subrange(i, t.len() as int);
    is_char_boundary_start_end_of_seq(u);
    if j < t.len() {
        is_char_boundary_iff_not_is_continuation_byte(u, j - i);
    } else {
        assert(j - i == u.len());
    }
    valid_utf8_split(u, j - i);
    assert(u.subrange(0, j - i) =~= t.subrange(i, j));
}

/// In valid UTF-8, the byte after an ASCII byte starts a character.
pub proof fn lemma_after_ascii(t: Seq<u8>, k: int)
    requires
        valid_utf8(t),
        0 <= k,
        k + 1 < t.len(),
        t[k] < 0x80,
    ensures
        !is_continuation_byte(t[k + 1]),
{
    is_char_boundary_iff_not_is_continuation_byte(t, k);
    valid_utf8_split(t, k);
    let u = t.subrange(k, t.len() as int);
    assert(u[0] == t[k]);
    assert(valid_first_scalar(u));
    assert(length_of_first_scalar(u) == 1);
    let v = pop_first_scalar(u);
    assert(v =~= t.subrange(k + 1, t.len() as int));
    assert(v.len() > 0);
    assert(valid_utf8(v));
    assert(valid_first_scalar(v));
    assert(v[0] == t[k + 1]);
}

/// A single ASCII byte is valid UTF-8.
pub proof fn lemma_ascii_byte_valid(b: u8)
    requires
        b < 0x80,
    ensures
        valid_utf8(seq![b]),
{
    reveal_with_fuel(valid_utf8, 2);
    assert(pop_first_scalar(seq![b]) =~= Seq::<u8>::empty());
}

/// Appends `t[i..j]` to `out`.
pub(crate) fn push_range(out: &mut Vec<u8>, t: &[u8], i: usize, j: usize)
    requires
        i <= j <= t@.len(),
    ensures
        final(out)@ == old(out)@ + t@.subrange(i as int, j as int),
{
    let mut k = i;
    while k < j
        invariant
            i <= k <= j <= t@.len(),
            out@ == old(out)@ + t@.subrange(i as int, k as int),
        decreases j - k,
    {
        out.push(t[k]);
        k = k + 1;
        assert(t@.subrange(i as int, k as int) =~= t@.subrange(i as int, k - 1) + seq![t@[k - 1]]);
    }
}

/// Turns UTF-8 bytes into a string (`String::from_utf8`); `None` exactly when
/// the bytes are not valid UTF-8, as the standard library documents.
#[verifier::external_body]
pub(crate) fn string_from_utf8(bytes: Vec<u8>) -> (res: Option<String>)
    ensures
        res is Some <==> valid_utf8(bytes@),
        res matches Some(s) ==> encode_utf8(s@) == bytes@,
{
    String::from_utf8(bytes).ok()
}

/// Encoding a concatenation concatenates the encodings.
pub proof fn lemma_encode_append(a: Seq<char>, b: Seq<char>)
    ensures
        encode_utf8(a + b) == encode_utf8(a) + encode_utf8(b),
    decreases a.len(),
{
    if a.len() == 0 {
        assert(a + b =~= b);
        assert(Seq::<u8>::empty() + encode_utf8(b) =~= encode_utf8(b));
    } else {
        lemma_encode_append(a.drop_first(), b);
        assert((a + b).drop_first() =~= a.drop_first() + b);
        assert((a + b)[0] == a[0]);
        assert(encode_utf8(a + b) == encode_scalar(a[0] as u32) + encode_utf8((a + b).drop_first()));
        assert(encode_scalar(a[0] as u32) + (encode_utf8(a.drop_first()) + encode_utf8(b))
            =~= encode_scalar(a[0] as u32) + encode_utf8(a.drop_first()) + encode_utf8(b));
    }
}

/// The encoding of a newline is the byte 10.
pub proof fn lemma_encode_newline()
    ensures
        encode_utf8(seq!['\n']) == seq![10u8],
{
    let s = seq!['\n'];
    assert(s.drop_first() =~= Seq::<char>::empty());
    assert(encode_utf8(s) == encode_scalar(s[0] as u32) + encode_utf8(s.drop_first()));
    assert(('\n' as u32) == 10);
    assert((10u32 & 0x7F) == 10u32) by (bit_vector);
    assert(encode_scalar(10) =~= seq![10u8]);
    assert(seq![10u8] + Seq::<u8>::empty() =~= seq![10u8]);
}

/// `String::push`: appends a character.
#[verifier::external_body]
pub(crate) fn string_push(s: &mut String, c: char)
    ensures
        final(s)@ == old(s)@.push(c),
{
    s.push(c)
}

/// Appends the characters of `t` to `s`.
pub fn push_str(s: &mut String, t: &str)
    ensures
        final(s)@ == old(s)@ + t@,
{
    let n = t.unicode_len();
    let mut i: usize = 0;
    while i < n
        invariant
            i <= n,
            n == t@.len(),
            s@ == old(s)@ + t@.subrange(0, i as int),
        decreases n - i,
    {
        string_push(s, t.get_char(i));
        i = i + 1;
        assert(s@ =~= old(s)@ + t@.subrange(0, i as int));
    }
    assert(t@.subrange(0, n as int) =~= t@);
}

/// What `str::to_lowercase` gives for a text: Unicode lowercase mapping,
/// which takes tables to state; it depends on the text alone.
pub uninterp spec fn lowercase_of(s: Seq<char>) -> Seq<char>;

/// `str::to_lowercase`: the text in lowercase (see [`lowercase_of`]).
#[verifier::external_body]
pub(crate) fn to_lowercase(s: &str) -> (r: String)
    ensures
        r@ == lowercase_of(s@),
{
    s.to_lowercase()
}

/// `String::pop`: removes and returns the last character, `None` when empty.
#[verifier::external_body]
pub(crate) fn string_pop(s: &mut String) -> (r: Option<char>)
    ensures
        old(s)@.len() == 0 ==> r is None && final(s)@ == old(s)@,
        old(s)@.len() > 0 ==> r == Some(old(s)@.last()) && final(s)@ == old(s)@.drop_last(),
{
    s.pop()
}

/// `String::insert`: inserts a character at a byte position, which must be
/// the start of a character or the end (it panics otherwise).
#[verifier::external_body]
pub(crate) fn string_insert(s: &mut String, idx: usize, c: char)
    requires
        is_char_boundary(encode_utf8(old(s)@), idx as int),
    ensures
        encode_utf8(final(s)@) == encode_utf8(old(s)@).subrange(0, idx as int) + encode_utf8(seq![c])
            + encode_utf8(old(s)@).subrange(idx as int, encode_utf8(old(s)@).len() as int),
{
    s.insert(idx, c)
}

/// `String::remove`: removes the character that starts at a byte position
/// before the end (it panics otherwise) and returns it.
#[verifier::external_body]
pub(crate) fn string_remove(s: &mut String, idx: usize) -> (r: char)
    requires
        idx < encode_utf8(old(s)@).len(),
        is_char_boundary(encode_utf8(old(s)@), idx as int),
    ensures
        ({
            let b = encode_utf8(old(s)@);
            let rest = b.subrange(idx as int, b.len() as int);
            &&& r == decode_first_scalar(rest) as char
            &&& encode_utf8(final(s)@) == b.subrange(0, idx as int) + b.subrange(
                idx + length_of_first_scalar(rest),
                b.len() as int,
            )
        }),
{
    s.remove(idx)
}

/// The characters with the Unicode `White_Space` property, which
/// `char::is_whitespace` and `str::split_whitespace` go by.
pub open spec fn is_white_space(c: char) -> bool {
    let u = c as u32;
    ||| 0x09 <= u <= 0x0d
    ||| u == 0x20
    ||| u == 0x85
    ||| u == 0xa0
    ||| u == 0x1680
    ||| 0x2000 <= u <= 0x200a
    ||| u == 0x2028
    ||| u == 0x2029
    ||| u == 0x202f
    ||| u == 0x205f
    ||| u == 0x3000
}

/// Whether `c` is white space.
pub fn is_whitespace(c: char) -> (r: bool)
    ensures
        r == is_white_space(c),
{
    let u = c as u32;
    (0x09 <= u && u <= 0x0d) || u == 0x20 || u == 0x85 || u == 0xa0 || u == 0x1680 || (0x2000
        <= u && u <= 0x200a) || u == 0x2028 || u == 0x2029 || u == 0x202f || u == 0x205f || u
        == 0x3000
}

/// Index of the first character of `s` satisfying (`ws`) or not satisfying
/// (`!ws`) `is_white_space`, or `s.len()`.
pub open spec fn find_class(s: Seq<char>, ws: bool) -> int
    decreases s.len(),
{
    if s.len() == 0 {
        0
    } else if is_white_space(s[0]) == ws {
        0
    } else {
        1 + find_class(s.drop_first(), ws)
    }
}

pub proof fn lemma_find_class(s: Seq<char>, ws: bool)
    ensures
        0 <= find_class(s, ws) <= s.len(),
        find_class(s, ws) < s.len() ==> is_white_space(s[find_class(s, ws)]) == ws,
        forall|j: int| 0 <= j < find_class(s, ws) ==> is_white_space(#[trigger] s[j]) != ws,
    decreases s.len(),
{
    if s.len() > 0 && is_white_space(s[0]) != ws {
        lemma_find_class(s.drop_first(), ws);
        assert forall|j: int| 0 <= j < find_class(s, ws) implies is_white_space(#[trigger] s[j]) != ws by {
            if j > 0 {
                assert(s[j] == s.drop_first()[j - 1]);
            }
        }
    }
}

pub proof fn lemma_find_class_is(s: Seq<char>, ws: bool, k: int)
    requires
        0 <= k <= s.len(),
        k == s.len() || is_white_space(s[k]) == ws,
        forall|j: int| 0 <= j < k ==> is_white_space(#[trigger] s[j]) != ws,
    ensures
        find_class(s, ws) == k,
{
    lemma_find_class(s, ws);
    let m = find_class(s, ws);
    if m < k {
        assert(is_white_space(s[m]) != ws);
    } else if k < m {
        assert(is_white_space(s[k]) != ws);
    }
}

/// The words of `s`: the maximal runs of characters that are not white
/// space, as `str::split_whitespace` gives them.
pub open spec fn split_ws(s: Seq<char>) -> Seq<Seq<char>>
    decreases s.len(),
{
    proof {
        lemma_find_class(s, false);
    }
    let i = find_class(s, false);
    if i == s.len() {
        Seq::empty()
    } else {
        let t = s.subrange(i, s.len() as int);
        proof {
            lemma_find_class(t, true);
        }
        let k = find_class(t, true);
        seq![t.subrange(0, k)] + split_ws(t.subrange(k, t.len() as int))
    }
}

/// Splits `s` into its words (see [`split_ws`]).
pub fn split_whitespace(s: &str) -> (words: Vec<String>)
    ensures
        words.deep_view() == split_ws(s@),
{
    let n = s.unicode_len();
    let mut words: Vec<String> = Vec::new();
    let mut i: usize = 0;
    proof {
        assert(s@.subrange(0, n as int) =~= s@);
    }
    while i < n
        invariant
            n == s@.len(),
            i <= n,
            words.deep_view() + split_ws(s@.subrange(i as int, n as int)) == split_ws(s@),
        decreases n - i,
    {
        let ghost rest = s@.subrange(i as int, n as int);
        let mut j = i;
        while j < n && is_whitespace(s.get_char(j))
            invariant
                i <= j <= n,
                n == s@.len(),
                forall|m: int| i <= m < j ==> is_white_space(#[trigger] s@[m]),
            decreases n - j,
        {
            j = j + 1;
        }
        proof {
            assert forall|m: int| 0 <= m < j - i implies is_white_space(#[trigger] rest[m]) != false by {
                assert(rest[m] == s@[i + m]);
            }
            if j < n {
                assert(rest[j - i] == s@[j as int]);
            }
            lemma_find_class_is(rest, false, j - i);
        }
        if j == n {
            proof {
                assert(split_ws(rest) =~= Seq::<Seq<char>>::empty());
                assert(s@.subrange(n as int, n as int) =~= Seq::<char>::empty());
                assert(split_ws(s@.subrange(n as int, n as int)) =~= Seq::<Seq<char>>::empty());
            }
            i = n;
        } else {
            let mut word = String::new();
            let mut k = j;
            while k < n && !is_whitespace(s.get_char(k))
                invariant
                    j <= k <= n,
                    n == s@.len(),
                    word@ == s@.subrange(j as int, k as int),
                    forall|m: int| j <= m < k ==> !is_white_space(#[trigger] s@[m]),
                decreases n - k,
            {
                let c = s.get_char(k);
                string_push(&mut word, c);
                k = k + 1;
                assert(word@ =~= s@.subrange(j as int, k as int));
            }
            let ghost t = rest.subrange(j - i, rest.len() as int);
            proof {
                assert(t =~= s@.subrange(j as int, n as int));
                assert forall|m: int| 0 <= m < k - j implies is_white_space(#[trigger] t[m]) != true by {
                    assert(t[m] == s@[j + m]);
                }
                if k < n {
                    assert(t[k - j] == s@[k as int]);
                }
                lemma_find_class_is(t, true, k - j);
                assert(t.subrange(0, k - j) =~= s@.subrange(j as int, k as int));
                assert(t.subrange(k - j, t.len() as int) =~= s@.subrange(k as int, n as int));
            }
            let ghost before = words.deep_view();
            words.push(word);
            proof {
                assert(words.deep_view() =~= before.push(s@.subrange(j as int, k as int)));
                assert(split_ws(rest) == seq![s@.subrange(j as int, k as int)] + split_ws(
                    s@.subrange(k as int, n as int),
                ));
                assert(before.push(s@.subrange(j as int, k as int)) =~= before + seq![
                    s@.subrange(j as int, k as int),
                ]);
            }
            i = k;
        }
    }
    proof {
        assert(s@.subrange(i as int, n as int) =~= Seq::<char>::empty());
        assert(split_ws(s@.subrange(i as int, n as int)) =~= Seq::<Seq<char>>::empty());
        assert(words.deep_view() + Seq::<Seq<char>>::empty() =~= words.deep_view());
    }
    words
}

/// Index of the first `c` in `s`, or `s.len()`.
pub open spec fn char_index(s: Seq<char>, c: char) -> int
    decreases s.len(),
{
    if s.len() == 0 {
        0
    } else if s[0] == c {
        0
    } else {
        1 + char_index(s.drop_first(), c)
    }
}

pub proof fn lemma_char_index(s: Seq<char>, c: char)
    ensures
        0 <= char_index(s, c) <= s.len(),
        char_index(s, c) < s.len() ==> s[char_index(s, c)] == c,
        forall|j: int| 0 <= j < char_index(s, c) ==> #[trigger] s[j] != c,
    decreases s.len(),
{
    if s.len() > 0 && s[0] != c {
        lemma_char_index(s.drop_first(), c);
        assert forall|j: int| 0 <= j < char_index(s, c) implies #[trigger] s[j] != c by {
            if j > 0 {
                assert(s[j] == s.drop_first()[j - 1]);
            }
        }
    }
}

/// The pieces of `s` between the separators `c`, empty pieces included, as
/// `str::split` gives them.
pub open spec fn split_on(s: Seq<char>, c: char) -> Seq<Seq<char>>
    decreases s.len(),
{
    proof {
        lemma_char_index(s, c);
    }
    let k = char_index(s, c);
    if k == s.len() {
        seq![s]
    } else {
        seq![s.subrange(0, k)] + split_on(s.subrange(k + 1, s.len() as int), c)
    }
}

/// Splits `s` at every `c` (see [`split_on`]).
pub fn split_char(s: &str, c: char) -> (pieces: Vec<String>)
    ensures
        pieces.deep_view() == split_on(s@, c),
{
    let n = s.unicode_len();
    let mut pieces: Vec<String> = Vec::new();
    let mut piece = String::new();
    let mut i: usize = 0;
    proof {
        assert(s@.subrange(0, n as int) =~= s@);
    }
    let ghost mut start: int = 0;
    while i < n
        invariant
            n == s@.len(),
            0 <= start <= i <= n,
            piece@ == s@.subrange(start, i as int),
            forall|j: int| start <= j < i ==> #[trigger] s@[j] != c,
            pieces.deep_view() + split_on(s@.subrange(start, n as int), c) == split_on(s@, c),
        decreases n - i,
    {
        let d = s.get_char(i);
        if d == c {
            let ghost rest = s@.subrange(start, n as int);
            proof {
                assert forall|j: int| 0 <= j < i - start implies #[trigger] rest[j] != c by {
                    assert(rest[j] == s@[start + j]);
                }
                assert(rest[i - start] == c);
                lemma_char_index(rest, c);
                let k = char_index(rest, c);
                if k < i - start {
                    assert(rest[k] == c);
                } else if k > i - start {
                    assert(rest[i - start] != c);
                }
                assert(rest.subrange(0, i - start) =~= s@.subrange(start, i as int));
                assert(rest.subrange(i - start + 1, rest.len() as int) =~= s@.subrange(i + 1, n as int));
            }
            let ghost before = pieces.deep_view();
            pieces.push(piece);
            proof {
                assert(pieces.deep_view() =~= before + seq![s@.subrange(start, i as int)]);
            }
            piece = String::new();
            proof {
                start = i + 1;
                assert(piece@ =~= s@.subrange(start, i + 1));
            }
        } else {
            string_push(&mut piece, d);
            proof {
                assert(piece@ =~= s@.subrange(start, i + 1));
            }
        }
        i = i + 1;
    }
    let ghost rest = s@.subrange(start, n as int);
    proof {
        assert forall|j: int| 0 <= j < rest.len() implies #[trigger] rest[j] != c by {
            assert(rest[j] == s@[start + j]);
        }
        lemma_char_index(rest, c);
        if char_index(rest, c) < rest.len() {
            assert(rest[char_index(rest, c)] != c);
        }
    }
    let ghost before = pieces.deep_view();
    pieces.push(piece);
    proof {
        assert(pieces.deep_view() =~= before + seq![rest]);
    }
    pieces
}

/// `s` without its leading and trailing white space, as `str::trim` gives it.
pub open spec fn trimmed(s: Seq<char>) -> Seq<char> {
    let i = find_class(s, false);
    let t = s.subrange(i, s.len() as int);
    t.subrange(0, t.len() - trailing_ws(t))
}

/// The number of white space characters at the end of `s`.
pub open spec fn trailing_ws(s: Seq<char>) -> int
    decreases s.len(),
{
    if s.len() == 0 {
        0
    } else if is_white_space(s.last()) {
        1 + trailing_ws(s.drop_last())
    } else {
        0
    }
}

pub proof fn lemma_trailing_ws_bound(s: Seq<char>)
    ensures
        0 <= trailing_ws(s) <= s.len(),
    decreases s.len(),
{
    if s.len() > 0 && is_white_space(s.last()) {
        lemma_trailing_ws_bound(s.drop_last());
    }
}

/// Removes leading and trailing white space (see [`trimmed`]).
pub fn trim(s: &str) -> (r: String)
    ensures
        r@ == trimmed(s@),
{
    let n = s.unicode_len();
    let mut i: usize = 0;
    while i < n && is_whitespace(s.get_char(i))
        invariant
            i <= n,
            n == s@.len(),
            forall|m: int| 0 <= m < i ==> is_white_space(#[trigger] s@[m]),
        decreases n - i,
    {
        i = i + 1;
    }
    proof {
        lemma_find_class_is(s@, false, i as int);
    }
    let ghost t = s@.subrange(i as int, n as int);
    let mut j = n;
    proof {
        assert(t.subrange(0, t.len() as int) =~= t);
    }
    while j > i && is_whitespace(s.get_char(j - 1))
        invariant
            i <= j <= n,
            n == s@.len(),
            t == s@.subrange(i as int, n as int),
            trailing_ws(t) == (n - j) + trailing_ws(s@.subrange(i as int, j as int)),
        decreases j,
    {
        proof {
            let u = s@.subrange(i as int, j as int);
            assert(u.last() == s@[j - 1]);
            assert(u.drop_last() =~= s@.subrange(i as int, j - 1));
        }
        j = j - 1;
    }
    proof {
        let u = s@.subrange(i as int, j as int);
        if j > i {
            assert(u.last() == s@[j - 1]);
        } else {
            assert(u.len() == 0);
        }
        lemma_trailing_ws_bound(t);
        assert(t.subrange(0, t.len() - trailing_ws(t)) =~= s@.subrange(i as int, j as int));
    }
    let mut r = String::new();
    let mut k = i;
    while k < j
        invariant
            i <= k <= j <= n,
            n == s@.len(),
            r@ == s@.subrange(i as int, k as int),
        decreases j - k,
    {
        string_push(&mut r, s.get_char(k));
        k = k + 1;
        assert(r@ =~= s@.subrange(i as int, k as int));
    }
    r
}

/// Pieces joined with `c` between each two.
pub open spec fn joined_with(ps: Seq<Seq<char>>, c: char) -> Seq<char>
    decreases ps.len(),
{
    if ps.len() == 0 {
        Seq::empty()
    } else if ps.len() == 1 {
        ps[0]
    } else {
        ps[0] + seq![c] + joined_with(ps.drop_first(), c)
    }
}

/// Splitting at `c` loses nothing: there is at least one piece, no piece
/// holds `c`, and the pieces joined with `c` give the text back.
pub proof fn law_split_rejoins(s: Seq<char>, c: char)
    ensures
        split_on(s, c).len() >= 1,
        joined_with(split_on(s, c), c) == s,
        forall|i: int, j: int|
            0 <= i < split_on(s, c).len() && 0 <= j < split_on(s, c)[i].len() ==> #[trigger] split_on(s, c)[i][j]
                != c,
    decreases s.len(),
{
    lemma_char_index(s, c);
    let k = char_index(s, c);
    let ps = split_on(s, c);
    if k == s.len() {
        assert(ps == seq![s]);
    } else {
        let rest = s.subrange(k + 1, s.len() as int);
        law_split_rejoins(rest, c);
        let tail = split_on(rest, c);
        assert(ps == seq![s.subrange(0, k)] + tail);
        assert(ps.drop_first() =~= tail);
        assert(ps.len() >= 2);
        assert(joined_with(ps, c) == s.subrange(0, k) + seq![c] + joined_with(tail, c));
        assert(s =~= s.subrange(0, k) + seq![c] + rest);
        assert forall|i: int, j: int| 0 <= i < ps.len() && 0 <= j < ps[i].len() implies #[trigger] ps[i][j] != c by {
            if i == 0 {
                assert(ps[0][j] == s[j]);
            } else {
                assert(ps[i] == tail[i - 1]);
            }
        }
    }
}

/// The words of a text are not empty and hold no white space; a text with
/// no white space is one word, and white space alone has none.
pub proof fn law_words(s: Seq<char>)
    ensures
        forall|i: int| 0 <= i < split_ws(s).len() ==> (#[trigger] split_ws(s)[i]).len() > 0,
        forall|i: int, j: int|
            0 <= i < split_ws(s).len() && 0 <= j < split_ws(s)[i].len() ==> !is_white_space(
                #[trigger] split_ws(s)[i][j],
            ),
        (forall|j: int| 0 <= j < s.len() ==> is_white_space(#[trigger] s[j])) ==> split_ws(s).len() == 0,
    decreases s.len(),
{
    lemma_find_class(s, false);
    let i0 = find_class(s, false);
    if i0 < s.len() {
        let t = s.subrange(i0, s.len() as int);
        lemma_find_class(t, true);
        let k = find_class(t, true);
        assert(!is_white_space(t[0]));
        assert(k > 0);
        let rest = t.subrange(k, t.len() as int);
        law_words(rest);
        let ws = split_ws(s);
        assert(ws == seq![t.subrange(0, k)] + split_ws(rest));
        assert forall|i: int| 0 <= i < ws.len() implies (#[trigger] ws[i]).len() > 0 by {
            if i > 0 {
                assert(ws[i] == split_ws(rest)[i - 1]);
            }
        }
        assert forall|i: int, j: int| 0 <= i < ws.len() && 0 <= j < ws[i].len() implies !is_white_space(
            #[trigger] ws[i][j],
        ) by {
            if i == 0 {
                assert(ws[0][j] == t[j]);
            } else {
                assert(ws[i] == split_ws(rest)[i - 1]);
            }
        }
        if forall|j: int| 0 <= j < s.len() ==> is_white_space(#[trigger] s[j]) {
            assert(is_white_space(s[i0]));
        }
    }
}

/// Trimming keeps a piece of the text in place and removes only white
/// space: the result neither starts nor ends with white space, and trimming
/// again changes nothing.
pub proof fn law_trim(s: Seq<char>)
    ensures
        trimmed(s).len() > 0 ==> !is_white_space(trimmed(s)[0]) && !is_white_space(trimmed(s).last()),
        exists|a: int| 0 <= a && a + trimmed(s).len() <= s.len() && #[trigger] s.subrange(a, a + trimmed(s).len())
            == trimmed(s),
        trimmed(trimmed(s)) == trimmed(s),
{
    lemma_find_class(s, false);
    let i = find_class(s, false);
    let t = s.subrange(i, s.len() as int);
    lemma_trailing_ws_bound(t);
    let n = trailing_ws(t);
    let r = t.subrange(0, t.len() - n);
    assert(r == trimmed(s));
    assert(s.subrange(i, i + r.len()) =~= r);
    lemma_trailing_ws_facts(t);
    if r.len() > 0 {
        assert(r[0] == s[i]);
        assert(!is_white_space(s[i]));
        assert(r.last() == t[t.len() - n - 1]);
    }
    lemma_find_class_is(r, false, 0);
    assert(r.subrange(0, r.len() as int) =~= r);
    if r.len() > 0 {
        lemma_trailing_ws_zero(r);
    } else {
        assert(trailing_ws(r) == 0);
    }
    assert(r.subrange(0, r.len() - 0) =~= r);
}

proof fn lemma_trailing_ws_facts(t: Seq<char>)
    ensures
        0 <= trailing_ws(t) <= t.len(),
        trailing_ws(t) < t.len() ==> !is_white_space(t[t.len() - trailing_ws(t) - 1]),
    decreases t.len(),
{
    if t.len() > 0 && is_white_space(t.last()) {
        lemma_trailing_ws_facts(t.drop_last());
        let u = t.drop_last();
        if trailing_ws(t) < t.len() {
            assert(t[t.len() - trailing_ws(t) - 1] == u[u.len() - trailing_ws(u) - 1]);
        }
    }
}

proof fn lemma_trailing_ws_zero(r: Seq<char>)
    requires
        r.len() > 0,
        !is_white_space(r.last()),
    ensures
        trailing_ws(r) == 0,
{
}

} // verus!
