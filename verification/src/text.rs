//! Text of bounded byte length, kept inline without heap allocation.

use crate::failure::{DecodeError, DecodeErrorView, Subject};
use crate::value::{Value, ValueView};
use str_buf::StrBuf;
use vstd::prelude::*;
use vstd::utf8::*;

verus! {

/// The largest number of bytes that any bounded text can hold: the backing
/// buffer counts its bytes in a single `u8`.
pub const MAX_CAPACITY: usize = 255;

/// The inline byte buffer of the `str_buf` crate. Its value is opaque here;
/// what it holds is named by [`buffer_text`].
#[verifier::external_type_specification]
#[verifier::external_body]
pub struct ExStrBuf<const N: usize>(StrBuf<N>);

/// The characters held by a backing buffer: what `StrBuf::as_str` returns.
pub uninterp spec fn buffer_text(buf: StrBuf<255>) -> Seq<char>;

/// The number of bytes that the UTF-8 encoding of `text` takes.
pub open spec fn byte_len(text: Seq<char>) -> nat {
    encode_utf8(text).len()
}

/// Whether `head` is the longest prefix of `text` whose encoding takes at
/// most `room` bytes: it fits, and the next character of `text`, if there is
/// one, no longer does.
pub open spec fn is_longest_fit(head: Seq<char>, text: Seq<char>, room: int) -> bool {
    &&& head.is_prefix_of(text)
    &&& byte_len(head) <= room
    &&& head.len() < text.len() ==> byte_len(text.take(head.len() as int + 1)) > room
}

/// What decoding a structured value as a text of at most `capacity` bytes
/// gives, on behalf of `subject`: a text that fits is taken, a longer one is
/// an invalid length, and any other shape is the wrong type.
pub open spec fn spec_decode_text(value: ValueView, capacity: nat, subject: Subject) -> Result<
    Seq<char>,
    DecodeErrorView,
> {
    match value {
        ValueView::Text(text) => if byte_len(text) <= capacity {
            Ok(text)
        } else {
            Err(DecodeErrorView::InvalidLength { len: byte_len(text) as usize, expected: subject })
        },
        _ => Err(DecodeErrorView::InvalidType { found: value, expected: subject }),
    }
}

/// `StrBuf::new`: a fresh buffer holds no text.
#[verifier::external_body]
fn buffer_new() -> (buf: StrBuf<255>)
    ensures
        buffer_text(buf) == Seq::<char>::empty(),
{
    StrBuf::new()
}

/// `StrBuf::as_str`: the held text, borrowed.
#[verifier::external_body]
fn buffer_as_str(buf: &StrBuf<255>) -> (text: &str)
    ensures
        text@ == buffer_text(*buf),
{
    buf.as_str()
}

/// `StrBuf::push_str`: appends the longest prefix of `text` that ends on a
/// character boundary and fits into the bytes left of the buffer's 255, and
/// returns the number of bytes appended.
#[verifier::external_body]
fn buffer_push(buf: &mut StrBuf<255>, text: &str) -> (written: usize)
    ensures
        buffer_text(*old(buf)).is_prefix_of(buffer_text(*final(buf))),
        is_longest_fit(
            buffer_text(*final(buf)).skip(buffer_text(*old(buf)).len() as int),
            text@,
            255 - byte_len(buffer_text(*old(buf))),
        ),
        written == byte_len(buffer_text(*final(buf))) - byte_len(buffer_text(*old(buf))),
{
    buf.push_str(text)
}

/// The encoding of a concatenation is the concatenation of the encodings.
pub proof fn lemma_encode_concat(a: Seq<char>, b: Seq<char>)
    ensures
        encode_utf8(a + b) == encode_utf8(a) + encode_utf8(b),
    decreases a.len(),
{
    if a.len() == 0 {
        assert(a + b == b);
        assert(encode_utf8(a) + encode_utf8(b) == encode_utf8(b));
    } else {
        lemma_encode_concat(a.drop_first(), b);
        assert((a + b).drop_first() == a.drop_first() + b);
        assert((a + b)[0] == a[0]);
        assert(encode_utf8(a + b) == encode_scalar(a[0] as u32) + (encode_utf8(a.drop_first())
            + encode_utf8(b)));
    }
}

/// The encoding of one character takes at least one byte.
pub proof fn lemma_one_char_is_not_empty(c: char)
    ensures
        byte_len(seq![c]) >= 1,
{
    assert(seq![c].drop_first() == Seq::<char>::empty());
    assert(encode_utf8(seq![c]) == encode_scalar(c as u32) + encode_utf8(Seq::<char>::empty()));
}

/// A prefix never takes more bytes than the whole text.
pub proof fn lemma_prefix_byte_len(head: Seq<char>, text: Seq<char>)
    requires
        head.is_prefix_of(text),
    ensures
        byte_len(head) <= byte_len(text),
{
    let rest = text.skip(head.len() as int);
    assert(text == head + rest);
    lemma_encode_concat(head, rest);
}

/// When the whole text fits, the longest fitting prefix is the text itself.
pub proof fn lemma_longest_fit_whole(head: Seq<char>, text: Seq<char>, room: int)
    requires
        is_longest_fit(head, text, room),
        byte_len(text) <= room,
    ensures
        head == text,
{
    if head.len() < text.len() {
        let next = text.take(head.len() as int + 1);
        lemma_prefix_byte_len(next, text);
    }
}

/// The encoding of a prefix ends on a character boundary of the whole
/// encoding.
pub proof fn lemma_prefix_ends_on_boundary(head: Seq<char>, rest: Seq<char>)
    ensures
        is_char_boundary(encode_utf8(head + rest), byte_len(head) as int),
    decreases head.len(),
{
    broadcast use encode_utf8_valid_utf8;

    let text = head + rest;
    let bytes = encode_utf8(text);
    if head.len() == 0 {
        assert(encode_utf8(head).len() == 0);
    } else {
        let tail = head.drop_first();
        encode_utf8_first_scalar(text);
        assert(text[0] == head[0]);
        assert(text.drop_first() == tail + rest);
        assert(pop_first_scalar(bytes) =~= encode_utf8(tail + rest));
        lemma_encode_concat(head, rest);
        lemma_prefix_ends_on_boundary(tail, rest);
    }
}

/// The number of bytes of a string slice.
pub fn str_byte_len(text: &str) -> (len: usize)
    ensures
        len == byte_len(text@),
{
    text.as_bytes().len()
}

/// Whether two string slices hold the same text.
pub fn same_text(a: &str, b: &str) -> (same: bool)
    ensures
        same == (a@ == b@),
{
    broadcast use encode_utf8_decode_utf8;

    let x = a.as_bytes();
    let y = b.as_bytes();
    if x.len() != y.len() {
        return false;
    }
    let mut i: usize = 0;
    while i < x.len()
        invariant
            i <= x.len(),
            x.len() == y.len(),
            x@ == encode_utf8(a@),
            y@ == encode_utf8(b@),
            forall|j: int| 0 <= j < i ==> x@[j] == y@[j],
        decreases x.len() - i,
    {
        if x[i] != y[i] {
            return false;
        }
        i = i + 1;
    }
    assert(x@ =~= y@);
    assert(decode_utf8(encode_utf8(a@)) == decode_utf8(encode_utf8(b@)));
    true
}

/// The byte index at which the longest prefix of `text` that takes at most
/// `room` bytes ends: the last character boundary within `room`.
pub fn fitting_len(text: &str, room: usize) -> (cut: usize)
    ensures
        cut <= room,
        cut <= byte_len(text@),
        is_char_boundary(encode_utf8(text@), cut as int),
        forall|k: int|
            cut < k <= room && k <= byte_len(text@) ==> !is_char_boundary(encode_utf8(text@), k),
{
    broadcast use encode_utf8_valid_utf8;

    let len: usize = str_byte_len(text);
    let mut cut: usize = if len < room {
        len
    } else {
        room
    };
    while !text.is_char_boundary(cut)
        invariant
            cut <= room,
            cut <= len,
            len == byte_len(text@),
            valid_utf8(encode_utf8(text@)),
            forall|k: int|
                cut < k <= room && k <= len ==> !is_char_boundary(encode_utf8(text@), k),
        decreases cut,
    {
        cut = cut - 1;
    }
    cut
}

/// The reason a text was not stored: it needs more bytes than are left.
#[derive(Clone, Copy, Debug, PartialEq, Eq, Structural)]
pub struct CapacityError {
    /// The bytes that the rejected text takes.
    pub needed: usize,
    /// The bytes that were still free.
    pub available: usize,
}

/// A text of at most `N` bytes (and never more than [`MAX_CAPACITY`]), kept
/// inline and copied by value.
///
/// The bytes live in a `str_buf::StrBuf` of the largest capacity that crate
/// supports; the bound `N` is this type's own invariant.
#[derive(Clone, Copy, Debug, PartialEq, Eq, Hash)]
pub struct BoundedText<const N: usize> {
    buf: StrBuf<255>,
}

impl<const N: usize> View for BoundedText<N> {
    type V = Seq<char>;

    closed spec fn view(&self) -> Seq<char> {
        buffer_text(self.buf)
    }
}

impl<const N: usize> BoundedText<N> {
    /// The capacity in bytes: `N`, capped at [`MAX_CAPACITY`].
    pub open spec fn spec_capacity() -> nat {
        if N > 255 {
            255
        } else {
            N as nat
        }
    }

    /// Every value holds a text that fits its capacity.
    #[verifier::type_invariant]
    pub closed spec fn fits(&self) -> bool {
        byte_len(buffer_text(self.buf)) <= Self::spec_capacity()
    }

    /// The empty text.
    pub fn new() -> (text: Self)
        ensures
            text@ == Seq::<char>::empty(),
    {
        let buf = buffer_new();
        assert(encode_utf8(Seq::<char>::empty()).len() == 0);
        BoundedText { buf }
    }

    /// The capacity in bytes.
    pub fn capacity() -> (cap: usize)
        ensures
            cap == Self::spec_capacity(),
    {
        if N > MAX_CAPACITY {
            MAX_CAPACITY
        } else {
            N
        }
    }

    /// The text, borrowed.
    pub fn as_str(&self) -> (text: &str)
        ensures
            text@ == self@,
            byte_len(text@) <= Self::spec_capacity(),
    {
        proof {
            use_type_invariant(self);
        }
        buffer_as_str(&self.buf)
    }

    /// The number of bytes held.
    pub fn len(&self) -> (len: usize)
        ensures
            len == byte_len(self@),
            len <= Self::spec_capacity(),
    {
        proof {
            use_type_invariant(self);
        }
        str_byte_len(buffer_as_str(&self.buf))
    }

    /// The number of bytes still free.
    pub fn remaining(&self) -> (room: usize)
        ensures
            room == Self::spec_capacity() - byte_len(self@),
    {
        Self::capacity() - self.len()
    }

    /// Appends `text`, which the caller knows to fit.
    pub fn push_unchecked(&mut self, text: &str)
        requires
            byte_len(old(self)@) + byte_len(text@) <= Self::spec_capacity(),
        ensures
            final(self)@ == old(self)@ + text@,
    {
        let ghost before = buffer_text(self.buf);
        let mut buf = self.buf;
        let _written: usize = buffer_push(&mut buf, text);
        proof {
            let after = buffer_text(buf);
            let head = after.skip(before.len() as int);
            lemma_longest_fit_whole(head, text@, 255 - byte_len(before));
            assert(after == before + head);
            lemma_encode_concat(before, text@);
        }
        self.buf = buf;
    }

    /// The text made of `text` if it fits the capacity.
    pub fn try_from_str(text: &str) -> (made: Result<Self, CapacityError>)
        ensures
            made is Ok <==> byte_len(text@) <= Self::spec_capacity(),
            made matches Ok(held) ==> held@ == text@,
            made matches Err(e) ==> e.needed == byte_len(text@) && e.available
                == Self::spec_capacity(),
    {
        let mut held = Self::new();
        proof {
            assert(encode_utf8(Seq::<char>::empty()).len() == 0);
        }
        match held.push(text) {
            Ok(()) => {
                assert(Seq::<char>::empty() + text@ == text@);
                Ok(held)
            },
            Err(e) => Err(e),
        }
    }

    /// The longest prefix of `text` that fits the capacity: `text` cut at the
    /// last character boundary within it.
    pub fn from_str_truncated(text: &str) -> (held: Self)
        ensures
            is_longest_fit(held@, text@, Self::spec_capacity() as int),
    {
        broadcast use {encode_utf8_valid_utf8, encode_utf8_decode_utf8};

        let cut: usize = fitting_len(text, Self::capacity());
        let (head, rest) = text.split_at(cut);
        let mut held = Self::new();
        proof {
            let bytes = encode_utf8(text@);
            assert(encode_utf8(Seq::<char>::empty()).len() == 0);
            assert(encode_utf8(head@) == bytes.subrange(0, cut as int));
            assert(encode_utf8(rest@) == bytes.subrange(cut as int, bytes.len() as int));
            decode_utf8_split(bytes, cut as int);
            assert(text@ == head@ + rest@);
            if head@.len() < text@.len() {
                let next = text@.take(head@.len() as int + 1);
                let after = text@.skip(head@.len() as int + 1);
                assert(text@ == next + after);
                lemma_prefix_ends_on_boundary(next, after);
                lemma_prefix_byte_len(next, text@);
                assert(next == head@ + seq![text@[head@.len() as int]]);
                lemma_encode_concat(head@, seq![text@[head@.len() as int]]);
                lemma_one_char_is_not_empty(text@[head@.len() as int]);
            }
        }
        held.push_unchecked(head);
        assert(Seq::<char>::empty() + head@ == head@);
        held
    }

    /// Reads a bounded text from a structured value, on behalf of `subject`.
    pub fn decode(value: Value, subject: Subject) -> (decoded: Result<Self, DecodeError>)
        ensures
            decoded matches Ok(held) ==> spec_decode_text(value@, Self::spec_capacity(), subject)
                == Ok::<Seq<char>, DecodeErrorView>(held@),
            decoded matches Err(e) ==> spec_decode_text(value@, Self::spec_capacity(), subject)
                == Err::<Seq<char>, DecodeErrorView>(e@),
    {
        match value {
            Value::Text(text) => match Self::try_from_str(text.as_str()) {
                Ok(held) => Ok(held),
                Err(e) => Err(DecodeError::InvalidLength { len: e.needed, expected: subject }),
            },
            other => Err(DecodeError::InvalidType { found: other, expected: subject }),
        }
    }

    /// Writes the text as a structured value.
    pub fn encode(&self) -> (value: Value)
        ensures
            value@ == ValueView::Text(self@),
            byte_len(self@) <= Self::spec_capacity(),
    {
        Value::Text(self.as_str().to_owned())
    }

    /// Appends `text` if the result fits the capacity, and leaves the text as
    /// it was otherwise.
    pub fn push(&mut self, text: &str) -> (done: Result<(), CapacityError>)
        ensures
            done is Ok <==> byte_len(old(self)@) + byte_len(text@) <= Self::spec_capacity(),
            done is Ok ==> final(self)@ == old(self)@ + text@,
            done matches Err(e) ==> {
                &&& final(self)@ == old(self)@
                &&& e.needed == byte_len(text@)
                &&& e.available == Self::spec_capacity() - byte_len(old(self)@)
            },
    {
        let available: usize = self.remaining();
        let needed: usize = str_byte_len(text);
        if needed <= available {
            self.push_unchecked(text);
            Ok(())
        } else {
            Err(CapacityError { needed, available })
        }
    }
}

} // verus!
