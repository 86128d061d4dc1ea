//! The single-line input of the parameter popup. The cursor is a byte offset
//! into the value, as with `String::insert` and `String::remove`.

use vstd::prelude::*;
use vstd::utf8::{encode_scalar, encode_utf8, is_char_boundary};

use crate::text::{chars_of, push_char, string_of};

verus! {

broadcast use vstd::string::group_string_axioms, vstd::slice::axiom_spec_len;

/// The UTF-8 bytes of a text.
pub open spec fn utf8(s: Seq<char>) -> Seq<u8> {
    encode_utf8(s)
}

/// The byte length of a text as `str::len` reports it.
pub open spec fn str_len(s: Seq<char>) -> usize {
    encode_utf8(s).len() as usize
}

/// The byte offset at which character `k` of `s` starts (the byte length of
/// the first `k` characters).
pub open spec fn offset(s: Seq<char>, k: int) -> int {
    encode_utf8(s.take(k)).len() as int
}

/// The index of the character that starts at byte offset `c`.
pub open spec fn char_index(s: Seq<char>, c: int) -> int {
    choose|k: int| 0 <= k <= s.len() && offset(s, k) == c
}

/// The index of the character that holds the byte before offset `c`.
pub open spec fn char_before(s: Seq<char>, c: int) -> int {
    choose|j: int| #![trigger offset(s, j)] 0 <= j < s.len() && offset(s, j) < c <= offset(s, j + 1)
}

// ---------------------------------------------------------------------------
// Lemmas on UTF-8 offsets
// ---------------------------------------------------------------------------

/// One character takes one to four bytes.
proof fn lemma_char_len(c: char)
    ensures
        1 <= encode_utf8(seq![c]).len() <= 4,
        encode_utf8(seq![c]) == encode_scalar(c as u32),
{
    let one = seq![c];
    assert(one.drop_first() =~= Seq::<char>::empty());
    assert(encode_utf8(one) == encode_scalar(one[0] as u32) + encode_utf8(one.drop_first()));
    assert(encode_utf8(one) =~= encode_scalar(c as u32));
}

/// Encoding a concatenation concatenates the encodings.
proof fn lemma_encode_concat(a: Seq<char>, b: Seq<char>)
    ensures
        encode_utf8(a + b) == encode_utf8(a) + encode_utf8(b),
    decreases a.len(),
{
    if a.len() == 0 {
        assert(a + b =~= b);
        assert(encode_utf8(a) + encode_utf8(b) =~= encode_utf8(b));
    } else {
        lemma_encode_concat(a.drop_first(), b);
        assert((a + b).drop_first() =~= a.drop_first() + b);
        assert((a + b)[0] == a[0]);
        assert(encode_utf8(a + b) =~= encode_utf8(a) + encode_utf8(b));
    }
}

/// The next character's bytes follow the offset of character `i`.
proof fn lemma_offset_step(s: Seq<char>, i: int)
    requires
        0 <= i < s.len(),
    ensures
        offset(s, i + 1) == offset(s, i) + encode_utf8(seq![s[i]]).len(),
        offset(s, i) < offset(s, i + 1),
{
    assert(s.take(i + 1) =~= s.take(i) + seq![s[i]]);
    lemma_encode_concat(s.take(i), seq![s[i]]);
    lemma_char_len(s[i]);
}

/// Offsets grow with the character index.
proof fn lemma_offset_mono(s: Seq<char>, i: int, j: int)
    requires
        0 <= i < j <= s.len(),
    ensures
        offset(s, i) < offset(s, j),
    decreases j - i,
{
    lemma_offset_step(s, i);
    if i + 1 < j {
        lemma_offset_mono(s, i + 1, j);
    }
}

/// The first and last offsets.
proof fn lemma_offset_ends(s: Seq<char>)
    ensures
        offset(s, 0) == 0,
        offset(s, s.len() as int) == encode_utf8(s).len(),
{
    assert(s.take(0) =~= Seq::<char>::empty());
    assert(s.take(s.len() as int) =~= s);
}

/// The character boundaries of the encoding of `s` are its character offsets.
proof fn lemma_boundary_offsets(s: Seq<char>, idx: int)
    ensures
        is_char_boundary(encode_utf8(s), idx) <==> exists|k: int|
            0 <= k <= s.len() && #[trigger] offset(s, k) == idx,
    decreases s.len(),
{
    broadcast use vstd::utf8::encode_utf8_valid_utf8;

    let b = encode_utf8(s);
    lemma_offset_ends(s);
    if idx == 0 {
        assert(offset(s, 0) == idx);
    } else if s.len() == 0 {
        assert forall|k: int| 0 <= k <= s.len() implies #[trigger] offset(s, k) != idx by {}
    } else {
        let r = s.drop_first();
        vstd::utf8::encode_utf8_first_scalar(s);
        let l = encode_scalar(s[0] as u32).len() as int;
        assert(b == encode_scalar(s[0] as u32) + encode_utf8(r));
        assert(vstd::utf8::pop_first_scalar(b) =~= encode_utf8(r));
        lemma_boundary_offsets(r, idx - l);
        assert forall|k: int| 1 <= k <= s.len() implies #[trigger] offset(s, k) == l + offset(
            r,
            k - 1,
        ) by {
            let t = s.take(k);
            assert(t.drop_first() =~= r.take(k - 1));
            assert(t[0] == s[0]);
        }
        if is_char_boundary(b, idx) {
            assert(0 < idx <= b.len());
            let k1 = choose|k: int| 0 <= k <= r.len() && #[trigger] offset(r, k) == idx - l;
            assert(offset(s, k1 + 1) == idx);
        }
        if exists|k: int| 0 <= k <= s.len() && #[trigger] offset(s, k) == idx {
            let k = choose|k: int| 0 <= k <= s.len() && #[trigger] offset(s, k) == idx;
            assert(k >= 1);
            if k < s.len() {
                lemma_offset_mono(s, k, s.len() as int);
            }
            assert(offset(r, k - 1) == idx - l);
            assert(0 < idx <= b.len());
            assert(is_char_boundary(encode_utf8(r), idx - l));
        }
    }
}

/// A byte offset inside the text lies within exactly one character.
proof fn lemma_char_before(s: Seq<char>, c: int)
    requires
        0 < c <= encode_utf8(s).len(),
    ensures
        0 <= char_before(s, c) < s.len(),
        offset(s, char_before(s, c)) < c <= offset(s, char_before(s, c) + 1),
        forall|j: int|
            #![trigger offset(s, j)]
            0 <= j < s.len() && offset(s, j) < c <= offset(s, j + 1) ==> j == char_before(s, c),
{
    lemma_offset_ends(s);
    lemma_char_before_exists(s, c, s.len() as int);
    let j0 = char_before(s, c);
    assert forall|j: int|
        #![trigger offset(s, j)]
        0 <= j < s.len() && offset(s, j) < c <= offset(s, j + 1) implies j == j0 by {
        if j < j0 {
            if j + 1 < j0 {
                lemma_offset_mono(s, j + 1, j0);
            }
        } else if j0 < j {
            if j0 + 1 < j {
                lemma_offset_mono(s, j0 + 1, j);
            }
        }
    }
}

proof fn lemma_char_before_exists(s: Seq<char>, c: int, n: int)
    requires
        0 < n <= s.len(),
        0 < c <= offset(s, n),
    ensures
        exists|j: int| #![trigger offset(s, j)] 0 <= j < s.len() && offset(s, j) < c <= offset(s, j + 1),
    decreases n,
{
    lemma_offset_ends(s);
    if offset(s, n - 1) < c {
        assert(offset(s, n - 1) < c <= offset(s, (n - 1) + 1));
    } else {
        lemma_char_before_exists(s, c, n - 1);
    }
}

/// At a character offset, the character index is that of the offset.
proof fn lemma_char_index(s: Seq<char>, k: int)
    requires
        0 <= k <= s.len(),
    ensures
        char_index(s, offset(s, k)) == k,
        is_char_boundary(encode_utf8(s), offset(s, k)),
{
    lemma_boundary_offsets(s, offset(s, k));
    let k2 = char_index(s, offset(s, k));
    if k2 < k {
        lemma_offset_mono(s, k2, k);
    } else if k < k2 {
        lemma_offset_mono(s, k, k2);
    }
}

/// The character index at a boundary offset: the first character for offset
/// zero, else the one after the character holding the byte before it.
proof fn lemma_index_at(s: Seq<char>, c: int, k: int)
    requires
        is_char_boundary(encode_utf8(s), c),
        0 <= k <= s.len(),
        c == 0 ==> k == 0,
        c > 0 ==> 0 < c <= encode_utf8(s).len() && k == char_before(s, c) + 1,
    ensures
        char_index(s, c) == k,
        offset(s, k) == c,
{
    lemma_boundary_offsets(s, c);
    lemma_offset_ends(s);
    let k0 = char_index(s, c);
    if c > 0 {
        lemma_char_before(s, c);
        let j = k - 1;
        assert(k0 > 0);
        if k0 <= j {
            if k0 < j {
                lemma_offset_mono(s, k0, j);
            }
        } else if k0 > j + 1 {
            lemma_offset_mono(s, j + 1, k0);
        }
    } else if k0 > 0 {
        lemma_offset_mono(s, 0, k0);
    }
}

/// After inserting `ch` as character `k`, the offset after it is the old
/// offset plus its bytes, a boundary of the new text.
proof fn lemma_inserted(s: Seq<char>, k: int, ch: char, t: Seq<char>)
    requires
        0 <= k <= s.len(),
        t == s.insert(k, ch),
    ensures
        offset(t, k) == offset(s, k),
        offset(t, k) < offset(t, k + 1),
        offset(t, k + 1) == offset(s, k) + encode_utf8(seq![ch]).len(),
        offset(t, k + 1) <= encode_utf8(t).len(),
        is_char_boundary(encode_utf8(t), offset(t, k + 1)),
{
    assert(t.take(k) =~= s.take(k));
    assert(t[k] == ch);
    lemma_offset_step(t, k);
    lemma_offset_ends(t);
    if k + 1 < t.len() {
        lemma_offset_mono(t, k + 1, t.len() as int);
    }
    lemma_char_index(t, k + 1);
}

// ---------------------------------------------------------------------------
// Executable helpers
// ---------------------------------------------------------------------------

/// The number of bytes of `c` in UTF-8.
fn char_byte_len(c: char) -> (n: usize)
    ensures
        n == encode_utf8(seq![c]).len(),
{
    let mut t = String::new();
    push_char(&mut t, c);
    assert(t@ =~= seq![c]);
    t.as_str().as_bytes().len()
}

/// For a byte offset `c` inside the text of `cs`: the index of the
/// character holding the byte before `c`, with the offsets where that
/// character starts and ends.
fn char_span(cs: &Vec<char>, total: usize, c: usize) -> (res: (usize, usize, usize))
    requires
        total == encode_utf8(cs@).len(),
        0 < c <= total,
    ensures
        res.0 == char_before(cs@, c as int),
        res.0 < cs@.len() <= usize::MAX,
        res.1 == offset(cs@, res.0 as int),
        res.2 == offset(cs@, res.0 + 1),
{
    let ghost s = cs@;
    proof {
        lemma_char_before(s, c as int);
        lemma_offset_ends(s);
    }
    let ghost j0 = char_before(s, c as int);
    let len = cs.len();
    let mut i: usize = 0;
    let mut off: usize = 0;
    loop
        invariant
            s == cs@,
            len == s.len(),
            total == encode_utf8(s).len(),
            j0 == char_before(s, c as int),
            0 <= j0 < s.len(),
            offset(s, j0) < c <= offset(s, j0 + 1),
            i <= j0,
            off == offset(s, i as int),
        decreases j0 - i,
    {
        proof {
            lemma_offset_step(s, i as int);
            if i + 1 < j0 {
                lemma_offset_mono(s, i + 1, j0);
            }
            if i + 1 < s.len() {
                lemma_offset_mono(s, i + 1, s.len() as int);
            }
            assert(cs@[i as int] == s[i as int]);
            lemma_offset_ends(s);
        }
        let n = char_byte_len(cs[i]);
        let next = off + n;
        if c <= next {
            proof {
                if i < j0 {
                    assert(offset(s, i + 1) <= offset(s, j0));
                }
            }
            return (i, off, next);
        }
        proof {
            if i == j0 {
                assert(false);
            }
        }
        i = i + 1;
        off = next;
    }
}

// ---------------------------------------------------------------------------
// The input state
// ---------------------------------------------------------------------------

/// The state of the text input: what it asks for, what was typed, and where
/// the cursor stands (in bytes).
pub struct InputState {
    pub label: String,
    pub value: String,
    pub cursor: usize,
}

/// The cursor after moving `cursor` by `delta` over a value of `len` bytes:
/// computed on `i16` as `move_cursor` does, so that it is clamped to
/// `0..=len` whenever `len` fits in an `i16`.
pub open spec fn moved_cursor(cursor: usize, delta: i16, len: usize) -> usize {
    let c = (cursor as i16) + delta;
    let c1 = if c < 0 {
        0
    } else {
        c
    };
    let c2 = if c1 > (len as i16) {
        (len as i16) as int
    } else {
        c1
    };
    c2 as usize
}

impl InputState {
    /// Whether `insert` may be called: the cursor lies on a character boundary.
    pub open spec fn can_insert(&self) -> bool {
        is_char_boundary(utf8(self.value@), self.cursor as int)
    }

    /// Whether `backspace` may be called: the cursor lies within the value.
    pub open spec fn can_backspace(&self) -> bool {
        self.cursor <= utf8(self.value@).len()
    }

    /// Whether `move_cursor(delta)` may be called: the `i16` sum does not overflow.
    pub open spec fn can_move(&self, delta: i16) -> bool {
        -0x8000 <= (self.cursor as i16) + delta <= 0x7fff
    }

    /// `next` is this input after `insert(ch)`: the character stands where
    /// the cursor was, and the cursor is just after its bytes.
    pub open spec fn inserted(&self, next: InputState, ch: char) -> bool {
        &&& next.value@ == self.value@.insert(char_index(self.value@, self.cursor as int), ch)
        &&& next.cursor == self.cursor + utf8(seq![ch]).len()
        &&& next.label == self.label
    }

    /// `next` is this input after `backspace()`: at the start nothing changes;
    /// else the character holding the byte before the cursor is gone and the
    /// cursor stands where that character started.
    pub open spec fn backspaced(&self, next: InputState) -> bool {
        let j = char_before(self.value@, self.cursor as int);
        &&& next.label == self.label
        &&& self.cursor == 0 ==> next.value@ == self.value@ && next.cursor == 0
        &&& self.cursor > 0 ==> {
            &&& next.value@ == self.value@.remove(j)
            &&& next.cursor == offset(self.value@, j)
        }
    }

    /// An empty input asking for `label`.
    pub fn new(label: String) -> (res: Self)
        ensures
            res.label == label,
            res.value@ == Seq::<char>::empty(),
            res.cursor == 0,
    {
        Self { label, value: String::new(), cursor: 0 }
    }

    /// Inserts `ch` at the cursor and moves the cursor past its bytes.
    pub fn insert(&mut self, ch: char)
        requires
            old(self).can_insert(),
        ensures
            old(self).inserted(*final(self), ch),
            final(self).can_insert(),
    {
        let ghost s = self.value@;
        let mut cs = chars_of(self.value.as_str());
        let k: usize = if self.cursor == 0 {
            proof {
                lemma_index_at(s, 0, 0);
            }
            0
        } else {
            proof {
                lemma_boundary_offsets(s, self.cursor as int);
                let k0 = choose|k: int| 0 <= k <= s.len() && #[trigger] offset(s, k) == self.cursor;
                lemma_offset_ends(s);
                if k0 < s.len() {
                    lemma_offset_mono(s, k0, s.len() as int);
                }
            }
            let (j, _, _) = char_span(&cs, self.value.as_str().as_bytes().len(), self.cursor);
            proof {
                lemma_index_at(s, self.cursor as int, j + 1);
            }
            j + 1
        };
        cs.insert(k, ch);
        let v = string_of(&cs);
        let total = v.as_str().as_bytes().len();
        let n = char_byte_len(ch);
        proof {
            lemma_inserted(s, k as int, ch, v@);
        }
        self.value = v;
        self.cursor = self.cursor + n;
    }

    /// Removes the character holding the byte before the cursor and moves the
    /// cursor to where it started; does nothing at the start.
    pub fn backspace(&mut self)
        requires
            old(self).can_backspace(),
        ensures
            old(self).backspaced(*final(self)),
    {
        if self.cursor == 0 {
            return;
        }
        let mut cs = chars_of(self.value.as_str());
        let total = self.value.as_str().as_bytes().len();
        let (j, start, _) = char_span(&cs, total, self.cursor);
        cs.remove(j);
        self.value = string_of(&cs);
        self.cursor = start;
    }

    /// Moves the cursor by `delta` bytes, within `0..=len` (computed on `i16`).
    pub fn move_cursor(&mut self, delta: i16)
        requires
            old(self).can_move(delta),
        ensures
            final(self).label == old(self).label,
            final(self).value == old(self).value,
            final(self).cursor == moved_cursor(
                old(self).cursor,
                delta,
                str_len(old(self).value@),
            ),
    {
        let mut c = self.cursor as i16 + delta;
        if c < 0 {
            c = 0;
        }
        if c > self.value.as_str().len() as i16 {
            c = self.value.as_str().len() as i16;
        }
        self.cursor = c as usize;
    }

    /// Appends pasted text and puts the cursor at the end.
    pub fn paste(&mut self, text: &str)
        ensures
            final(self).label == old(self).label,
            final(self).value@ == old(self).value@ + text@,
            final(self).cursor == str_len(final(self).value@),
    {
        self.value.append(text);
        self.cursor = self.value.as_str().len();
    }
}

/// Typing a character and then deleting it with Backspace gives back the
/// value and the cursor, for any character.
pub proof fn law_insert_then_backspace(s0: InputState, s1: InputState, s2: InputState, ch: char)
    requires
        s0.can_insert(),
        s0.inserted(s1, ch),
    ensures
        s1.can_backspace(),
        s1.backspaced(s2) ==> s2.value@ == s0.value@ && s2.cursor == s0.cursor && s2.label
            == s0.label,
{
    let s = s0.value@;
    let t = s1.value@;
    lemma_boundary_offsets(s, s0.cursor as int);
    let k = char_index(s, s0.cursor as int);
    lemma_inserted(s, k, ch, t);
    let c1 = s1.cursor as int;
    assert(c1 == offset(t, k + 1));
    lemma_char_before(t, c1);
    assert(char_before(t, c1) == k);
    assert(t.remove(k) =~= s);
}

} // verus!
