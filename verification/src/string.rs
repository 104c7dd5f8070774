//! Views over encoded text.
//!
//! The encoded string is usually UTF-8 but need not be: a path in it may hold
//! any bytes. [`EnvStr`] searches and slices such a string by bytes, and keeps
//! every slice on a character boundary, so that whatever is valid text in the
//! whole is valid text in each part.

use vstd::prelude::*;
use vstd::slice::slice_subrange;
use vstd::string::StringSliceAdditionalSpecFns;
use vstd::utf8::*;

verus! {

/// The UTF-8 bytes of a string.
pub open spec fn text(s: &str) -> Seq<u8> {
    s.spec_bytes()
}

/// The UTF-8 encoding of one character.
pub open spec fn char_bytes(ch: char) -> Seq<u8> {
    encode_scalar(ch as u32)
}

/// True when the bytes of `s` from index `i` on begin with `pat`.
pub open spec fn matches_at(s: Seq<u8>, pat: Seq<u8>, i: int) -> bool {
    0 <= i && i + pat.len() <= s.len() && s.subrange(i, i + pat.len()) == pat
}

/// True when `s[from..to]` is one to four bytes long and valid UTF-8.
pub open spec fn is_text_window(s: Seq<u8>, from: int, to: int) -> bool {
    0 <= from < to <= s.len() && to - from <= 4 && valid_utf8(s.subrange(from, to))
}

/// True when `i` is a place at which `s` may be cut: either end of `s`, or a
/// place with a short window of valid text directly after or before it.
pub open spec fn is_boundary(s: Seq<u8>, i: int) -> bool {
    &&& 0 <= i <= s.len()
    &&& (i == 0 || i == s.len() || (exists|j: int| #[trigger] is_text_window(s, i, j)) || (exists|
        j: int,
    | #[trigger] is_text_window(s, j, i)))
}

/// The index of the first `b` in `s` at or after `from`, or the length of `s`
/// when there is none.
pub open spec fn find_byte(s: Seq<u8>, b: u8, from: int) -> int
    decreases s.len() - from,
{
    if from < 0 || from >= s.len() {
        s.len() as int
    } else if s[from] == b {
        from
    } else {
        find_byte(s, b, from + 1)
    }
}

/// What [`find_byte`] returns: the least index from `from` on that holds `b`.
pub proof fn lemma_find_byte(s: Seq<u8>, b: u8, from: int)
    requires
        0 <= from <= s.len(),
    ensures
        from <= find_byte(s, b, from) <= s.len(),
        find_byte(s, b, from) < s.len() ==> s[find_byte(s, b, from)] == b,
        forall|j: int| from <= j < find_byte(s, b, from) ==> s[j] != b,
    decreases s.len() - from,
{
    if from < s.len() && s[from] != b {
        lemma_find_byte(s, b, from + 1);
    }
}

/// An index that holds `b` with none before it is what [`find_byte`] returns.
pub proof fn lemma_find_byte_is(s: Seq<u8>, b: u8, from: int, at: int)
    requires
        0 <= from <= at <= s.len(),
        at < s.len() ==> s[at] == b,
        forall|j: int| from <= j < at ==> s[j] != b,
    ensures
        find_byte(s, b, from) == at,
    decreases at - from,
{
    if from < at {
        lemma_find_byte_is(s, b, from + 1, at);
    }
}

/// Searching from `from` on is searching the rest of `s` from its beginning.
pub proof fn lemma_find_byte_suffix(s: Seq<u8>, b: u8, from: int)
    requires
        0 <= from <= s.len(),
    ensures
        find_byte(s, b, from) == from + find_byte(s.subrange(from, s.len() as int), b, 0),
{
    let rest = s.subrange(from, s.len() as int);
    let i = find_byte(rest, b, 0);
    lemma_find_byte(rest, b, 0);
    assert forall|j: int| from <= j < from + i implies s[j] != b by {
        assert(rest[j - from] == s[j]);
    }
    if i < rest.len() {
        assert(rest[i] == s[from + i]);
    }
    lemma_find_byte_is(s, b, from, from + i);
}

/// The parts of `s` before and after the first `b`, if `s` holds a `b`.
pub open spec fn split_at_byte(s: Seq<u8>, b: u8) -> Option<(Seq<u8>, Seq<u8>)> {
    let i = find_byte(s, b, 0);
    if 0 <= i < s.len() {
        Some((s.subrange(0, i), s.subrange(i + 1, s.len() as int)))
    } else {
        None
    }
}

/// The views of two parts, if there are any.
pub open spec fn opt_parts_view(parts: Option<(EnvStr, EnvStr)>) -> Option<(Seq<u8>, Seq<u8>)> {
    match parts {
        Some((before, after)) => Some((before@, after@)),
        None => None,
    }
}

/// An ASCII character stands where its byte stands.
pub proof fn lemma_matches_ascii(s: Seq<u8>, ch: char, i: int)
    requires
        (ch as u32) < 0x80,
    ensures
        matches_at(s, char_bytes(ch), i) == (0 <= i < s.len() && s[i] == ch as u8),
{
    lemma_ascii_char_bytes(ch);
    if 0 <= i < s.len() {
        if s[i] == ch as u8 {
            assert(s.subrange(i, i + 1) =~= seq![ch as u8]);
        } else {
            assert(s.subrange(i, i + 1)[0] == s[i]);
        }
    }
}

/// The first place at which an ASCII character stands is what [`find_byte`]
/// returns for its byte.
pub proof fn lemma_find_ascii(s: Seq<u8>, ch: char, at: int)
    requires
        (ch as u32) < 0x80,
        0 <= at <= s.len(),
        at < s.len() ==> matches_at(s, char_bytes(ch), at),
        forall|j: int| 0 <= j < at ==> !matches_at(s, char_bytes(ch), j),
    ensures
        find_byte(s, ch as u8, 0) == at,
{
    assert forall|j: int| 0 <= j < at implies s[j] != ch as u8 by {
        lemma_matches_ascii(s, ch, j);
    }
    lemma_matches_ascii(s, ch, at);
    lemma_find_byte_is(s, ch as u8, 0, at);
}

/// Valid text split at an ASCII byte gives two parts that are valid text.
pub proof fn lemma_split_text(s: Seq<u8>, b: u8)
    requires
        valid_utf8(s),
        b < 0x80,
        split_at_byte(s, b) is Some,
    ensures
        valid_utf8(split_at_byte(s, b).unwrap().0),
        valid_utf8(split_at_byte(s, b).unwrap().1),
{
    lemma_find_byte(s, b, 0);
    lemma_text_split_at_ascii(s, find_byte(s, b, 0));
}

/// A single ASCII byte is valid text.
pub proof fn lemma_ascii_is_text(b: u8)
    requires
        b < 0x80,
    ensures
        valid_first_scalar(seq![b]),
        decode_first_scalar(seq![b]) == b,
        valid_utf8(seq![b]),
{
    reveal_with_fuel(valid_utf8, 2);
    assert((b & 0x7F) as u32 == b) by (bit_vector)
        requires
            b < 0x80,
    ;
    assert(pop_first_scalar(seq![b]) =~= Seq::<u8>::empty());
}

/// An ASCII character is encoded as the byte of its code.
pub proof fn lemma_ascii_char_bytes(ch: char)
    requires
        (ch as u32) < 0x80,
    ensures
        char_bytes(ch) == seq![ch as u8],
{
    let c = ch as u32;
    assert((c & 0x7F) as u8 == c as u8) by (bit_vector)
        requires
            c < 0x80,
    ;
}

/// What begins with an ASCII byte begins with a character, namely that byte.
pub proof fn lemma_first_scalar_ascii(s: Seq<u8>)
    requires
        s.len() > 0,
        s[0] < 0x80,
    ensures
        valid_first_scalar(s),
        decode_first_scalar(s) == s[0],
        length_of_first_scalar(s) == 1,
{
    let b = s[0];
    assert((b & 0x7F) as u32 == b) by (bit_vector)
        requires
            b < 0x80,
    ;
}

/// A character of several bytes holds no ASCII byte, and its code is not ASCII.
pub proof fn lemma_first_scalar_wide(s: Seq<u8>)
    requires
        valid_first_scalar(s),
        s[0] >= 0x80,
    ensures
        decode_first_scalar(s) >= 0x80,
        2 <= length_of_first_scalar(s) <= 4,
        length_of_first_scalar(s) <= s.len(),
        forall|j: int| 0 <= j < length_of_first_scalar(s) ==> #[trigger] s[j] >= 0x80,
{
}

/// What `s` begins with is the ASCII character `ch` exactly when the first
/// byte of `s` is the byte of `ch`.
pub proof fn lemma_first_char_is(s: Seq<u8>, ch: char)
    requires
        s.len() > 0,
        (ch as u32) < 0x80,
    ensures
        (valid_first_scalar(s) && decode_first_scalar(s) as char == ch) <==> s[0] == ch as u8,
{
    if s[0] < 0x80 {
        lemma_first_scalar_ascii(s);
    } else if valid_first_scalar(s) {
        lemma_first_scalar_wide(s);
        lemma_first_scalar_is_scalar(s);
    }
}

/// The character that `s` begins with is encoded in as many bytes as it
/// takes in `s`.
pub proof fn lemma_first_char_len(s: Seq<u8>)
    requires
        valid_first_scalar(s),
    ensures
        char_bytes(decode_first_scalar(s) as char).len() == length_of_first_scalar(s),
{
    let w = take_first_scalar(s);
    lemma_first_scalar_window(s);
    assert(decode_first_scalar(w) == decode_first_scalar(s));
    decode_utf8_first_scalar(w);
    assert(take_first_scalar(w) =~= w);
}

/// The bytes of the first character of `s` are valid text by themselves.
pub proof fn lemma_first_scalar_window(s: Seq<u8>)
    requires
        valid_first_scalar(s),
    ensures
        1 <= length_of_first_scalar(s) <= 4,
        length_of_first_scalar(s) <= s.len(),
        valid_utf8(take_first_scalar(s)),
{
    reveal_with_fuel(valid_utf8, 2);
    let w = take_first_scalar(s);
    assert(valid_leading_and_continuation_bytes_first_codepoint(w));
    assert(decode_first_codepoint(w) == decode_first_codepoint(s));
    assert(length_of_first_codepoint(w) == length_of_first_codepoint(s));
    assert(pop_first_scalar(w) =~= Seq::<u8>::empty());
}

/// Both sides of an ASCII byte are boundaries.
pub proof fn lemma_boundary_at_ascii(s: Seq<u8>, i: int)
    requires
        0 <= i < s.len(),
        s[i] < 0x80,
    ensures
        is_boundary(s, i),
        is_boundary(s, i + 1),
{
    lemma_ascii_is_text(s[i]);
    assert(s.subrange(i, i + 1) =~= seq![s[i]]);
    assert(is_text_window(s, i, i + 1));
}

/// Both sides of a well-formed character are boundaries.
pub proof fn lemma_boundary_at_scalar(s: Seq<u8>, i: int)
    requires
        0 <= i <= s.len(),
        valid_first_scalar(s.subrange(i, s.len() as int)),
    ensures
        is_boundary(s, i),
        is_boundary(s, i + length_of_first_scalar(s.subrange(i, s.len() as int))),
{
    let rest = s.subrange(i, s.len() as int);
    let n = length_of_first_scalar(rest);
    lemma_first_scalar_window(rest);
    assert(s.subrange(i, i + n) =~= take_first_scalar(rest));
    assert(is_text_window(s, i, i + n));
}

/// Valid text cut at an ASCII byte is valid text on both sides of that byte.
pub proof fn lemma_text_split_at_ascii(s: Seq<u8>, i: int)
    requires
        valid_utf8(s),
        0 <= i < s.len(),
        s[i] < 0x80,
    ensures
        valid_utf8(s.subrange(0, i)),
        valid_utf8(s.subrange(i, s.len() as int)),
        valid_utf8(s.subrange(i + 1, s.len() as int)),
{
    is_char_boundary_iff_not_is_continuation_byte(s, i);
    valid_utf8_split(s, i);
    let rest = s.subrange(i, s.len() as int);
    lemma_first_scalar_ascii(rest);
    assert(pop_first_scalar(rest) =~= s.subrange(i + 1, s.len() as int));
}

/// The first character of a string that may hold invalid UTF-8.
pub enum EnvChar {
    /// The string begins with the encoding of this character.
    Valid(char),
    /// The string begins with bytes that encode no character.
    Invalid,
}

/// An owned encoded string.
pub struct EnvString {
    bytes: Vec<u8>,
}

impl EnvString {
    /// The bytes of the string.
    pub closed spec fn view(&self) -> Seq<u8> {
        self.bytes@
    }

    pub fn new(encoded: Vec<u8>) -> (s: Self)
        ensures
            s@ == encoded@,
    {
        EnvString { bytes: encoded }
    }

    /// Borrows the whole string as a view.
    pub fn as_env_str(&self) -> (s: EnvStr<'_>)
        ensures
            s@ == self@,
    {
        EnvStr { bytes: self.bytes.as_slice() }
    }
}

/// A borrowed view of an encoded string, or of a part of one.
#[derive(Clone, Copy)]
pub struct EnvStr<'a> {
    bytes: &'a [u8],
}

/// The number of bytes in the UTF-8 encoding of `ch`.
pub fn len_utf8(ch: char) -> (n: usize)
    ensures
        n == char_bytes(ch).len(),
        1 <= n <= 4,
{
    proof {
        char_is_scalar(ch);
    }
    let code = ch as u32;
    if code < 0x80 {
        1
    } else if code < 0x800 {
        2
    } else if code < 0x10000 {
        3
    } else {
        4
    }
}

/// Encodes `ch` as UTF-8 into the first bytes of an array, and returns the
/// array with the number of bytes used.
fn encode_utf8_char(ch: char) -> (r: ([u8; 4], usize))
    ensures
        1 <= r.1 <= 4,
        r.0@.subrange(0, r.1 as int) == char_bytes(ch),
{
    proof {
        char_is_scalar(ch);
    }
    let code = ch as u32;
    let mut buf: [u8; 4] = [0, 0, 0, 0];
    let n: usize;
    if code < 0x80 {
        assert(code & 0x7F <= 0x7F) by (bit_vector);
        buf[0] = (code & 0x7F) as u8;
        n = 1;
    } else if code < 0x800 {
        assert((code >> 6) & 0x1F <= 0x1F) by (bit_vector);
        assert(code & 0x3F <= 0x3F) by (bit_vector);
        buf[0] = 0xC0 | ((code >> 6) & 0x1F) as u8;
        buf[1] = 0x80 | (code & 0x3F) as u8;
        n = 2;
    } else if code < 0x10000 {
        assert((code >> 12) & 0x0F <= 0x0F) by (bit_vector);
        assert((code >> 6) & 0x3F <= 0x3F) by (bit_vector);
        assert(code & 0x3F <= 0x3F) by (bit_vector);
        buf[0] = 0xE0 | ((code >> 12) & 0x0F) as u8;
        buf[1] = 0x80 | ((code >> 6) & 0x3F) as u8;
        buf[2] = 0x80 | (code & 0x3F) as u8;
        n = 3;
    } else {
        assert((code >> 18) & 0x7 <= 0x7) by (bit_vector);
        assert((code >> 12) & 0x3F <= 0x3F) by (bit_vector);
        assert((code >> 6) & 0x3F <= 0x3F) by (bit_vector);
        assert(code & 0x3F <= 0x3F) by (bit_vector);
        buf[0] = 0xF0 | ((code >> 18) & 0x7) as u8;
        buf[1] = 0x80 | ((code >> 12) & 0x3F) as u8;
        buf[2] = 0x80 | ((code >> 6) & 0x3F) as u8;
        buf[3] = 0x80 | (code & 0x3F) as u8;
        n = 4;
    }
    assert(buf@.subrange(0, n as int) =~= char_bytes(ch));
    (buf, n)
}

/// Gives the character with the code `code`, if there is one.
///
/// Calls `char::from_u32`, which returns a character for every Unicode scalar
/// value (a code up to `0x10FFFF` outside the surrogate range) and `None` for
/// any other number.
#[verifier::external_body]
fn char_from_u32(code: u32) -> (ch: Option<char>)
    ensures
        ch == (if is_scalar(code) {
            Some(code as char)
        } else {
            None
        }),
{
    char::from_u32(code)
}

/// Reads `bytes` as text.
///
/// Calls `core::str::from_utf8`, which returns the input as a string slice
/// when the bytes are valid UTF-8, and an error when they are not.
#[verifier::external_body]
fn str_from_utf8<'a>(bytes: &'a [u8]) -> (s: Option<&'a str>)
    ensures
        s is Some <==> valid_utf8(bytes@),
        s is Some ==> text(s->0) == bytes@,
{
    core::str::from_utf8(bytes).ok()
}

impl<'a> EnvStr<'a> {
    /// The bytes of the string.
    pub closed spec fn view(&self) -> Seq<u8> {
        self.bytes@
    }

    pub fn new(encoded: &'a [u8]) -> (s: Self)
        ensures
            s@ == encoded@,
    {
        EnvStr { bytes: encoded }
    }

    pub fn as_bytes(&self) -> (bytes: &'a [u8])
        ensures
            bytes@ == self@,
    {
        self.bytes
    }

    pub fn len(&self) -> (n: usize)
        ensures
            n == self@.len(),
    {
        self.bytes.len()
    }

    pub fn is_empty(&self) -> (b: bool)
        ensures
            b == (self@.len() == 0),
    {
        self.bytes.len() == 0
    }

    /// Tells whether the bytes from index `i` on begin with the first `n`
    /// bytes of `pat`.
    fn has_at(&self, pat: &[u8; 4], n: usize, i: usize) -> (b: bool)
        requires
            1 <= n <= 4,
            i <= self@.len(),
        ensures
            b == matches_at(self@, pat@.subrange(0, n as int), i as int),
    {
        let ghost want = pat@.subrange(0, n as int);
        if self.bytes.len() - i < n {
            return false;
        }
        let mut k: usize = 0;
        while k < n
            invariant
                1 <= n <= 4,
                k <= n,
                i + n <= self@.len(),
                self@.len() <= usize::MAX,
                self@ == self.bytes@,
                want == pat@.subrange(0, n as int),
                forall|j: int| 0 <= j < k ==> self@[i + j] == want[j],
            decreases n - k,
        {
            if self.bytes[i + k] != pat[k] {
                assert(self@.subrange(i as int, i + n)[k as int] != want[k as int]);
                return false;
            }
            k += 1;
        }
        assert(self@.subrange(i as int, i + n) =~= want);
        true
    }

    /// The index at which `ch` first occurs.
    pub fn find(&self, ch: char) -> (found: Option<usize>)
        ensures
            match found {
                Some(i) => {
                    &&& matches_at(self@, char_bytes(ch), i as int)
                    &&& forall|j: int| 0 <= j < i ==> !matches_at(self@, char_bytes(ch), j)
                    &&& is_boundary(self@, i as int)
                    &&& is_boundary(self@, i + char_bytes(ch).len())
                },
                None => forall|j: int| !matches_at(self@, char_bytes(ch), j),
            },
            (ch as u32) < 0x80 ==> find_byte(self@, ch as u8, 0) == (match found {
                Some(i) => i as int,
                None => self@.len() as int,
            }),
    {
        let (pat, n) = encode_utf8_char(ch);
        let mut i: usize = 0;
        while i < self.bytes.len()
            invariant
                1 <= n <= 4,
                i <= self@.len(),
                self@ == self.bytes@,
                pat@.subrange(0, n as int) == char_bytes(ch),
                forall|j: int| 0 <= j < i ==> !matches_at(self@, char_bytes(ch), j),
            decreases self@.len() - i,
        {
            if self.has_at(&pat, n, i) {
                proof {
                    lemma_boundary_at_char(self@, ch, i as int);
                    if (ch as u32) < 0x80 {
                        lemma_find_ascii(self@, ch, i as int);
                    }
                }
                return Some(i);
            }
            i += 1;
        }
        proof {
            if (ch as u32) < 0x80 {
                lemma_find_ascii(self@, ch, self@.len() as int);
            }
        }
        None
    }

    /// Tells whether the string begins with `ch`.
    pub fn starts_with(&self, ch: char) -> (b: bool)
        ensures
            b == matches_at(self@, char_bytes(ch), 0),
            (ch as u32) < 0x80 ==> b == (self@.len() > 0 && self@[0] == ch as u8),
    {
        let (pat, n) = encode_utf8_char(ch);
        proof {
            if (ch as u32) < 0x80 {
                lemma_matches_ascii(self@, ch, 0);
            }
        }
        self.has_at(&pat, n, 0)
    }

    /// Tells whether the string ends with `ch`.
    pub fn ends_with(&self, ch: char) -> (b: bool)
        ensures
            b == matches_at(self@, char_bytes(ch), self@.len() - char_bytes(ch).len()),
            (ch as u32) < 0x80 ==> b == (self@.len() > 0 && self@[self@.len() - 1] == ch as u8),
    {
        let (pat, n) = encode_utf8_char(ch);
        proof {
            if (ch as u32) < 0x80 {
                lemma_ascii_char_bytes(ch);
                lemma_matches_ascii(self@, ch, self@.len() - 1);
            }
        }
        if self.bytes.len() < n {
            return false;
        }
        self.has_at(&pat, n, self.bytes.len() - n)
    }

    /// The character that the string begins with.
    pub fn first_char(&self) -> (first: Option<EnvChar>)
        ensures
            match first {
                None => self@.len() == 0,
                Some(EnvChar::Valid(ch)) => valid_first_scalar(self@) && ch == decode_first_scalar(
                    self@,
                ) as char,
                Some(EnvChar::Invalid) => self@.len() > 0 && !valid_first_scalar(self@),
            },
    {
        let len = self.bytes.len();
        if len == 0 {
            return None;
        }
        let b0 = self.bytes[0];
        let code: u32;
        if b0 < 0x80 {
            assert((b0 & 0x7F) as u32 <= 0x7F) by (bit_vector);
            code = (b0 & 0x7F) as u32;
        } else if 0xC0 <= b0 && b0 <= 0xDF {
            if len < 2 || !is_continuation(self.bytes[1]) {
                return Some(EnvChar::Invalid);
            }
            let b1 = self.bytes[1];
            assert((((b0 & 0x1F) as u32) << 6) | ((b1 & 0x3F) as u32) <= 0x7FF) by (bit_vector);
            code = (((b0 & 0x1F) as u32) << 6) | ((b1 & 0x3F) as u32);
            if code < 0x80 {
                return Some(EnvChar::Invalid);
            }
        } else if 0xE0 <= b0 && b0 <= 0xEF {
            if len < 3 || !is_continuation(self.bytes[1]) || !is_continuation(self.bytes[2]) {
                return Some(EnvChar::Invalid);
            }
            code = (((b0 & 0x0F) as u32) << 12) | (((self.bytes[1] & 0x3F) as u32) << 6) | ((
            self.bytes[2] & 0x3F) as u32);
            if code < 0x800 || (0xD800 <= code && code <= 0xDFFF) {
                return Some(EnvChar::Invalid);
            }
        } else if 0xF0 <= b0 && b0 <= 0xF7 {
            if len < 4 || !is_continuation(self.bytes[1]) || !is_continuation(self.bytes[2])
                || !is_continuation(self.bytes[3]) {
                return Some(EnvChar::Invalid);
            }
            code = (((b0 & 0x07) as u32) << 18) | (((self.bytes[1] & 0x3F) as u32) << 12) | (((
            self.bytes[2] & 0x3F) as u32) << 6) | ((self.bytes[3] & 0x3F) as u32);
            if code < 0x10000 || code > 0x10FFFF {
                return Some(EnvChar::Invalid);
            }
        } else {
            return Some(EnvChar::Invalid);
        }
        assert(valid_first_scalar(self@));
        assert(code == decode_first_scalar(self@));
        proof {
            lemma_first_scalar_is_scalar(self@);
        }
        match char_from_u32(code) {
            Some(ch) => Some(EnvChar::Valid(ch)),
            None => Some(EnvChar::Invalid),
        }
    }

    /// The parts before and after the first `ch`.
    pub fn split_once(&self, ch: char) -> (parts: Option<(EnvStr<'a>, EnvStr<'a>)>)
        ensures
            match parts {
                Some((before, after)) => {
                    &&& matches_at(self@, char_bytes(ch), before@.len() as int)
                    &&& forall|j: int|
                        0 <= j < before@.len() ==> !matches_at(self@, char_bytes(ch), j)
                    &&& before@ == self@.subrange(0, before@.len() as int)
                    &&& after@ == self@.subrange(
                        (before@.len() + char_bytes(ch).len()) as int,
                        self@.len() as int,
                    )
                },
                None => forall|j: int| !matches_at(self@, char_bytes(ch), j),
            },
            (ch as u32) < 0x80 ==> opt_parts_view(parts) == split_at_byte(self@, ch as u8),
    {
        proof {
            if (ch as u32) < 0x80 {
                lemma_ascii_char_bytes(ch);
            }
        }
        match self.find(ch) {
            Some(i) => {
                let n = len_utf8(ch);
                let total = self.len();
                assert(i + n <= total);
                Some((self.index_to(i), self.index_from(i + n)))
            },
            None => None,
        }
    }

    /// Tells whether the string is exactly `word`.
    pub fn eq_str(&self, word: &str) -> (b: bool)
        ensures
            b == (self@ == text(word)),
    {
        let other = word.as_bytes();
        if self.bytes.len() != other.len() {
            return false;
        }
        let mut i: usize = 0;
        while i < self.bytes.len()
            invariant
                self.bytes@.len() == other@.len(),
                i <= self.bytes@.len(),
                other@ == text(word),
                forall|j: int| 0 <= j < i ==> self.bytes@[j] == other@[j],
            decreases self.bytes@.len() - i,
        {
            if self.bytes[i] != other[i] {
                return false;
            }
            i += 1;
        }
        assert(self.bytes@ =~= other@);
        true
    }

    /// The string as text, if all of it is valid UTF-8.
    pub fn to_str(&self) -> (s: Option<&'a str>)
        ensures
            s is Some <==> valid_utf8(self@),
            s is Some ==> text(s->0) == self@,
    {
        str_from_utf8(self.bytes)
    }

    /// The part from `start` up to `end`. Both must be boundaries.
    pub fn index(&self, start: usize, end: usize) -> (part: EnvStr<'a>)
        requires
            start <= end,
            is_boundary(self@, start as int),
            is_boundary(self@, end as int),
        ensures
            part@ == self@.subrange(start as int, end as int),
    {
        EnvStr { bytes: slice_subrange(self.bytes, start, end) }
    }

    /// The part from `start` on, which must be a boundary.
    pub fn index_from(&self, start: usize) -> (part: EnvStr<'a>)
        requires
            is_boundary(self@, start as int),
        ensures
            part@ == self@.subrange(start as int, self@.len() as int),
    {
        self.index(start, self.len())
    }

    /// The part up to `end`, which must be a boundary.
    pub fn index_to(&self, end: usize) -> (part: EnvStr<'a>)
        requires
            is_boundary(self@, end as int),
        ensures
            part@ == self@.subrange(0, end as int),
    {
        self.index(0, end)
    }
}

fn is_continuation(b: u8) -> (r: bool)
    ensures
        r == is_continuation_byte(b),
{
    0x80 <= b && b <= 0xBF
}

/// The code of a well-formed first character is a Unicode scalar value.
pub proof fn lemma_first_scalar_is_scalar(s: Seq<u8>)
    requires
        valid_first_scalar(s),
    ensures
        is_scalar(decode_first_scalar(s)),
{
    let b0 = s[0];
    if is_leading_byte_width_1(b0) {
        assert((b0 & 0x7F) as u32 <= 0x7F) by (bit_vector);
    } else if is_leading_byte_width_2(b0) {
        let b1 = s[1];
        assert((((b0 & 0x1F) as u32) << 6) | ((b1 & 0x3F) as u32) <= 0x7FF) by (bit_vector);
    } else if is_leading_byte_width_3(b0) {
        let b1 = s[1];
        let b2 = s[2];
        assert((((b0 & 0x0F) as u32) << 12) | (((b1 & 0x3F) as u32) << 6) | ((b2 & 0x3F) as u32)
            <= 0xFFFF) by (bit_vector);
    } else {
    }
}

/// Where the encoding of a character stands, both its ends are boundaries.
pub proof fn lemma_boundary_at_char(s: Seq<u8>, ch: char, i: int)
    requires
        matches_at(s, char_bytes(ch), i),
    ensures
        is_boundary(s, i),
        is_boundary(s, i + char_bytes(ch).len()),
{
    let chars = seq![ch];
    encode_utf8_first_scalar(chars);
    encode_utf8_valid_utf8(chars);
    assert(chars.drop_first() =~= Seq::<char>::empty());
    assert(encode_utf8(chars) =~= char_bytes(ch)) by {
        reveal_with_fuel(encode_utf8, 2);
    }
    let n = char_bytes(ch).len() as int;
    char_is_scalar(ch);
    assert(1 <= n <= 4);
    assert(is_text_window(s, i, i + n));
}

} // verus!
