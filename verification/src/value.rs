//! The raw wire value of one header occurrence: an immutable byte sequence,
//! together with the byte classes that decide which values can be carried on
//! the wire and which can be read back as text.

use vstd::prelude::*;
use vstd::std_specs::iter::IteratorSpec;
use vstd::string::{StrSliceExecFns, StringSliceAdditionalSpecFns};
use vstd::utf8::*;

use crate::error::InvalidHeader;

verus! {

/// One raw header value: a byte sequence as it appears on the wire.
#[derive(Debug, Clone, PartialEq, Eq)]
pub struct HeaderValue {
    bytes: Vec<u8>,
}

impl View for HeaderValue {
    type V = Seq<u8>;

    closed spec fn view(&self) -> Seq<u8> {
        self.bytes@
    }
}

/// A byte that may appear in a header value: horizontal tab, or any byte from
/// 32 on except delete (127).
pub open spec fn wf_value_byte(b: u8) -> bool {
    b == 9 || (32 <= b && b != 127)
}

/// Every byte of the sequence may appear in a header value.
pub open spec fn wf_value_bytes(bs: Seq<u8>) -> bool {
    forall|i: int| 0 <= i < bs.len() ==> wf_value_byte(#[trigger] bs[i])
}

/// A byte that can be read back as text: horizontal tab or visible ASCII.
pub open spec fn visible_byte(b: u8) -> bool {
    b == 9 || (32 <= b && b < 127)
}

/// Every byte of the sequence can be read back as text.
pub open spec fn visible_bytes(bs: Seq<u8>) -> bool {
    forall|i: int| 0 <= i < bs.len() ==> visible_byte(#[trigger] bs[i])
}

/// A character that is horizontal tab or visible ASCII.
pub open spec fn visible_char(c: char) -> bool {
    let u = c as int;
    u == 9 || (32 <= u && u < 127)
}

/// Text whose characters are horizontal tab or visible ASCII; such text reads
/// back unchanged from the wire.
pub open spec fn visible_text(t: Seq<char>) -> bool {
    forall|i: int| 0 <= i < t.len() ==> visible_char(#[trigger] t[i])
}

/// A scalar character that can be carried in a header value: not a control
/// character other than horizontal tab, and not delete.
pub open spec fn wire_char(c: char) -> bool {
    let u = c as int;
    u == 9 || (32 <= u && u != 127 && u <= 0x10ffff)
}

/// Text that can be carried as a header value.
pub open spec fn wire_text(t: Seq<char>) -> bool {
    forall|i: int| 0 <= i < t.len() ==> wire_char(#[trigger] t[i])
}

/// Every character of the sequence is a Unicode scalar value.
pub open spec fn scalar_chars(t: Seq<char>) -> bool {
    forall|i: int| 0 <= i < t.len() ==> 0 <= (#[trigger] t[i]) as int <= 0x10ffff
}

/// A sequence of bytes below 128 is valid UTF-8.
pub proof fn lemma_ascii_bytes_valid_utf8(bs: Seq<u8>)
    requires
        forall|i: int| 0 <= i < bs.len() ==> #[trigger] bs[i] < 128,
    ensures
        valid_utf8(bs),
    decreases bs.len(),
{
    if bs.len() > 0 {
        let b0 = bs[0];
        assert(is_leading_byte_width_1(b0) && !is_continuation_byte(b0) && leading_bits_width_1(b0)
            < 128) by (bit_vector)
            requires
                b0 < 128,
        ;
        assert(valid_first_scalar(bs));
        assert(length_of_first_scalar(bs) == 1);
        assert(pop_first_scalar(bs) =~= bs.skip(1));
        lemma_ascii_bytes_valid_utf8(bs.skip(1));
    }
}

/// The bytes of one encoded scalar character: one byte equal to the character
/// for ASCII, and two to four bytes from 128 on otherwise.
proof fn lemma_encode_scalar_bytes(c: char)
    requires
        0 <= c as int <= 0x10ffff,
    ensures
        (c as int) < 128 ==> encode_scalar(c as u32) =~= seq![c as u8],
        (c as int) >= 128 ==> forall|j: int|
            0 <= j < encode_scalar(c as u32).len() ==> #[trigger] encode_scalar(c as u32)[j] >= 128,
{
    let s = c as u32;
    assert(s as int == c as int);
    if (c as int) < 128 {
        assert(has_width_1_encoding(s) && leading_byte_width_1(s) == s as u8) by (bit_vector)
            requires
                s < 128,
        ;
        assert(c as u8 == s as u8);
    } else {
        assert(!has_width_1_encoding(s) && leading_byte_width_2(s) >= 128
            && leading_byte_width_3(s) >= 128 && leading_byte_width_4(s) >= 128
            && last_continuation_byte(s) >= 128 && second_last_continuation_byte(s) >= 128
            && third_last_continuation_byte(s) >= 128) by (bit_vector)
            requires
                s >= 128,
        ;
    }
}

/// For text of tab and visible ASCII, the encoding is one byte per character,
/// each byte equal to its character.
pub proof fn lemma_visible_text_bytes(t: Seq<char>)
    requires
        visible_text(t),
    ensures
        encode_utf8(t).len() == t.len(),
        forall|i: int| 0 <= i < t.len() ==> #[trigger] encode_utf8(t)[i] == t[i] as u8,
        visible_bytes(encode_utf8(t)),
        is_ascii_chars(t),
{
    assert forall|i: int| 0 <= i < t.len() implies '\0' <= #[trigger] t[i] <= '\u{7f}' by {
        assert(visible_char(t[i]));
    }
    assert(is_ascii_chars(t));
    is_ascii_chars_encode_utf8(t);
    assert forall|i: int| 0 <= i < t.len() implies visible_byte(#[trigger] encode_utf8(t)[i]) by {
        assert(visible_char(t[i]));
        assert(encode_utf8(t)[i] == t[i] as u8);
        assert(t[i] as u8 as int == t[i] as int);
    }
}

/// Text without control characters (other than tab) or delete encodes to
/// bytes that may all appear in a header value.
pub proof fn lemma_wire_text_bytes(t: Seq<char>)
    requires
        wire_text(t),
    ensures
        wf_value_bytes(encode_utf8(t)),
    decreases t.len(),
{
    if t.len() > 0 {
        let c = t[0];
        assert(wire_char(c));
        lemma_encode_scalar_bytes(c);
        lemma_wire_text_bytes(t.drop_first());
        assert(encode_utf8(t) =~= encode_scalar(c as u32) + encode_utf8(t.drop_first()));
        assert forall|i: int| 0 <= i < encode_utf8(t).len() implies wf_value_byte(
            #[trigger] encode_utf8(t)[i],
        ) by {
            let head = encode_scalar(c as u32);
            if i < head.len() {
                assert(encode_utf8(t)[i] == head[i]);
                if (c as int) < 128 {
                    assert(head =~= seq![c as u8]);
                    assert(c as u8 as int == c as int);
                    assert(wf_value_byte(c as u8));
                } else {
                    assert(head[i] >= 128);
                }
            } else {
                assert(encode_utf8(t)[i] == encode_utf8(t.drop_first())[i - head.len()]);
            }
        }
    }
}

/// Visible text reads back from its own encoding.
pub proof fn lemma_visible_text_round(t: Seq<char>)
    requires
        visible_text(t),
    ensures
        visible_bytes(encode_utf8(t)),
        decode_utf8(encode_utf8(t)) == t,
{
    lemma_visible_text_bytes(t);
    encode_utf8_decode_utf8(t);
}

/// Characters of scalar values whose encoding stays below 128 are ASCII.
proof fn lemma_ascii_if_encoding_small(t: Seq<char>)
    requires
        scalar_chars(t),
        forall|i: int| 0 <= i < encode_utf8(t).len() ==> #[trigger] encode_utf8(t)[i] < 128,
    ensures
        is_ascii_chars(t),
    decreases t.len(),
{
    if t.len() > 0 {
        let c = t[0];
        assert(0 <= c as int <= 0x10ffff);
        lemma_encode_scalar_bytes(c);
        assert(encode_utf8(t) =~= encode_scalar(c as u32) + encode_utf8(t.drop_first()));
        if (c as int) >= 128 {
            assert(encode_utf8(t)[0] == encode_scalar(c as u32)[0]);
            assert(false);
        }
        assert forall|i: int|
            0 <= i < encode_utf8(t.drop_first()).len() implies #[trigger] encode_utf8(
            t.drop_first(),
        )[i] < 128 by {
            assert(encode_utf8(t.drop_first())[i] == encode_utf8(t)[i + encode_scalar(
                c as u32,
            ).len()]);
        }
        assert(scalar_chars(t.drop_first())) by {
            assert(forall|i: int|
                0 <= i < t.drop_first().len() ==> #[trigger] t.drop_first()[i] == t[i + 1]);
        }
        lemma_ascii_if_encoding_small(t.drop_first());
        assert forall|i: int| 0 <= i < t.len() implies '\0' <= #[trigger] t[i] <= '\u{7f}' by {
            if i > 0 {
                assert(t.drop_first()[i - 1] == t[i]);
            }
        }
    }
}

/// Relies on core::str::from_utf8: it succeeds exactly on valid UTF-8 input
/// and returns the same bytes as text (made of Unicode scalar values).
#[verifier::external_body]
fn bytes_to_str(v: &[u8]) -> (r: Option<&str>)
    ensures
        r is Some <==> valid_utf8(v@),
        r is Some ==> r->Some_0.spec_bytes() == v@,
        r is Some ==> scalar_chars(r->Some_0@),
{
    core::str::from_utf8(v).ok()
}

/// Two byte slices hold the same bytes.
pub fn bytes_eq(a: &[u8], b: &[u8]) -> (r: bool)
    ensures
        r <==> a@ == b@,
{
    if a.len() != b.len() {
        assert(a@ != b@);
        return false;
    }
    let n = a.len();
    let mut i: usize = 0;
    while i < n
        invariant
            n == a@.len() == b@.len(),
            0 <= i <= n,
            forall|j: int| 0 <= j < i ==> a@[j] == b@[j],
        decreases n - i,
    {
        if a[i] != b[i] {
            return false;
        }
        i += 1;
    }
    proof {
        assert(a@ =~= b@);
    }
    true
}

impl HeaderValue {
    /// Every byte of this value may appear in a header value on the wire.
    pub open spec fn wf(&self) -> bool {
        wf_value_bytes(self@)
    }

    /// Wraps the given bytes, accepting exactly the sequences whose bytes may
    /// all appear in a header value.
    pub fn from_bytes(bytes: Vec<u8>) -> (r: Result<HeaderValue, InvalidHeader>)
        ensures
            r is Ok <==> wf_value_bytes(bytes@),
            r is Ok ==> r->Ok_0@ == bytes@ && r->Ok_0.wf(),
    {
        let n = bytes.len();
        let mut i: usize = 0;
        while i < n
            invariant
                n == bytes@.len(),
                0 <= i <= n,
                forall|j: int| 0 <= j < i ==> wf_value_byte(#[trigger] bytes@[j]),
            decreases n - i,
        {
            let b = bytes[i];
            if !(b == 9 || (32 <= b && b != 127)) {
                return Err(InvalidHeader);
            }
            i += 1;
        }
        Ok(HeaderValue { bytes })
    }

    /// Wraps the encoding of the given text, accepting exactly the text whose
    /// bytes may all appear in a header value.
    pub fn from_text(s: &str) -> (r: Result<HeaderValue, InvalidHeader>)
        ensures
            r is Ok <==> wf_value_bytes(encode_utf8(s@)),
            r is Ok ==> r->Ok_0@ == encode_utf8(s@) && r->Ok_0.wf(),
    {
        let bytes = s.as_bytes_vec();
        HeaderValue::from_bytes(bytes)
    }

    /// The raw bytes of this value.
    pub fn as_bytes(&self) -> (r: &[u8])
        ensures
            r@ == self@,
    {
        self.bytes.as_slice()
    }

    /// Reads the value back as text: succeeds exactly when every byte is
    /// horizontal tab or visible ASCII, and then returns the bytes as
    /// characters, one per byte.
    pub fn to_text(&self) -> (r: Option<String>)
        ensures
            r is Some <==> visible_bytes(self@),
            r is Some ==> r->Some_0@ == decode_utf8(self@) && encode_utf8(r->Some_0@) == self@
                && visible_text(r->Some_0@),
    {
        let n = self.bytes.len();
        let mut i: usize = 0;
        while i < n
            invariant
                n == self.bytes@.len(),
                0 <= i <= n,
                forall|j: int| 0 <= j < i ==> visible_byte(#[trigger] self.bytes@[j]),
            decreases n - i,
        {
            let b = self.bytes[i];
            if !(b == 9 || (32 <= b && b < 127)) {
                return None;
            }
            i += 1;
        }
        proof {
            assert forall|j: int| 0 <= j < self.bytes@.len() implies #[trigger] self.bytes@[j]
                < 128 by {
                assert(visible_byte(self.bytes@[j]));
            }
            lemma_ascii_bytes_valid_utf8(self.bytes@);
        }
        match bytes_to_str(self.bytes.as_slice()) {
            Some(s) => {
                proof {
                    decode_utf8_encode_utf8(self.bytes@);
                    encode_utf8_decode_utf8(s@);
                    assert(decode_utf8(self@) == s@);
                    lemma_ascii_if_encoding_small(s@);
                    is_ascii_chars_encode_utf8(s@);
                    assert forall|i2: int| 0 <= i2 < s@.len() implies visible_char(
                        #[trigger] s@[i2],
                    ) by {
                        let c = s@[i2];
                        assert('\0' <= c <= '\u{7f}');
                        assert(c as u8 == encode_utf8(s@)[i2]);
                        assert(visible_byte(self.bytes@[i2]));
                        assert(c as u8 as int == c as int);
                    }
                }
                Some(s.to_owned())
            },
            None => {
                proof {
                    assert(false);
                }
                None
            },
        }
    }

    /// Reads the value back as UTF-8 text: succeeds exactly when the bytes
    /// are valid UTF-8, and then returns the text they encode.
    pub fn to_utf8_text(&self) -> (r: Option<String>)
        ensures
            r is Some <==> valid_utf8(self@),
            r is Some ==> r->Some_0@ == decode_utf8(self@) && encode_utf8(r->Some_0@) == self@,
    {
        match bytes_to_str(self.bytes.as_slice()) {
            Some(s) => {
                proof {
                    decode_utf8_encode_utf8(self.bytes@);
                    encode_utf8_decode_utf8(s@);
                }
                Some(s.to_owned())
            },
            None => None,
        }
    }

    /// The value holds exactly the encoding of the given text.
    pub fn eq_text(&self, s: &str) -> (r: bool)
        ensures
            r <==> self@ == encode_utf8(s@),
    {
        bytes_eq(self.bytes.as_slice(), s.as_bytes())
    }
}

/// Walks the characters of the text, deciding whether every one can be
/// carried in a header value.
pub fn check_wire_text(s: &str) -> (r: bool)
    ensures
        r == wire_text(s@),
{
    broadcast use vstd::string::group_string_axioms;

    let n = s.unicode_len();
    let mut it = s.chars();
    let mut i: usize = 0;
    loop
        invariant
            IteratorSpec::obeys_prophetic_iter_laws(&it),
            n == s@.len(),
            0 <= i <= s@.len(),
            IteratorSpec::remaining(&it) =~= s@.skip(i as int),
            forall|k: int| 0 <= k < i ==> wire_char(#[trigger] s@[k]),
        ensures
            i == s@.len(),
            forall|k: int| 0 <= k < i ==> wire_char(#[trigger] s@[k]),
        decreases s@.len() - i,
    {
        match it.next() {
            Some(c) => {
                proof {
                    lemma_char_bound(c);
                    assert(s@.skip(i as int)[0] == s@[i as int]);
                    assert(c == s@[i as int]);
                    assert(s@.skip(i as int).drop_first() =~= s@.skip(i + 1));
                }
                let u = c as u32;
                if !(u == 9 || (32 <= u && u != 127)) {
                    proof {
                        assert(!wire_char(s@[i as int]));
                    }
                    return false;
                }
                i += 1;
            },
            None => {
                proof {
                    assert(s@.skip(i as int).len() == 0);
                    assert(i == s@.len());
                }
                break ;
            },
        }
    }
    true
}

/// Every character value is a Unicode scalar value.
proof fn lemma_char_bound(c: char)
    ensures
        0 <= c as int <= 0x10ffff,
{
}

/// Walks the characters of the text, witnessing that each one is a Unicode
/// scalar value.
pub fn check_scalar_chars(s: &str) -> (b: bool)
    ensures
        b,
        scalar_chars(s@),
{
    broadcast use vstd::string::group_string_axioms;

    let n = s.unicode_len();
    let mut it = s.chars();
    let mut i: usize = 0;
    loop
        invariant
            IteratorSpec::obeys_prophetic_iter_laws(&it),
            n == s@.len(),
            0 <= i <= s@.len(),
            IteratorSpec::remaining(&it) =~= s@.skip(i as int),
            forall|k: int| 0 <= k < i ==> 0 <= (#[trigger] s@[k]) as int <= 0x10ffff,
        ensures
            i == s@.len(),
            forall|k: int| 0 <= k < i ==> 0 <= (#[trigger] s@[k]) as int <= 0x10ffff,
        decreases s@.len() - i,
    {
        match it.next() {
            Some(c) => {
                proof {
                    lemma_char_bound(c);
                    assert(s@.skip(i as int)[0] == s@[i as int]);
                    assert(c == s@[i as int]);
                    assert(s@.skip(i as int).drop_first() =~= s@.skip(i + 1));
                }
                i += 1;
            },
            None => {
                proof {
                    assert(s@.skip(i as int).len() == 0);
                    assert(i == s@.len());
                }
                break ;
            },
        }
    }
    true
}

/// A valid UTF-8 sequence of header-value bytes reads back as text that can
/// be carried in a header value again: the ASCII characters are the bytes
/// themselves, and every multi-byte character is a scalar from 128 on.
pub proof fn lemma_wf_bytes_wire_text(b: Seq<u8>)
    requires
        valid_utf8(b),
        wf_value_bytes(b),
    ensures
        wire_text(decode_utf8(b)),
    decreases b.len(),
{
    if b.len() > 0 {
        let s = decode_first_scalar(b);
        let w = length_of_first_codepoint(b);
        let c = s as char;
        assert(wf_value_byte(b[0]));
        if w == 1 {
            let b0 = b[0];
            assert(s == codepoint_width_1(b0));
            assert(is_leading_byte_width_1(b0) && leading_bits_width_1(b0) == b0) by (bit_vector)
                requires
                    b0 == b0,
                    is_leading_byte_width_1(b0),
            ;
            assert(s == b0);
            assert(s == 9 || (32 <= s && s != 127));
        } else {
            assert(0x80 <= s <= 0x10ffff) by {
                if w == 2 {
                    let b0 = b[0];
                    let b1 = b[1];
                    assert(codepoint_width_2(b0, b1) <= 0x7ff) by (bit_vector);
                } else if w == 3 {
                    let b0 = b[0];
                    let b1 = b[1];
                    let b2 = b[2];
                    assert(codepoint_width_3(b0, b1, b2) <= 0xffff) by (bit_vector);
                }
            }
        }
        assert(not_surrogate(s));
        assert(c as int == s as int);
        assert(wire_char(c));
        assert(forall|i: int|
            0 <= i < pop_first_scalar(b).len() ==> #[trigger] pop_first_scalar(b)[i] == b[i
            + length_of_first_scalar(b)]);
        lemma_wf_bytes_wire_text(pop_first_scalar(b));
        assert forall|i: int| 0 <= i < decode_utf8(b).len() implies wire_char(
            #[trigger] decode_utf8(b)[i],
        ) by {
            if i == 0 {
                assert(decode_utf8(b)[0] == c);
            } else {
                assert(decode_utf8(b)[i] == decode_utf8(pop_first_scalar(b))[i - 1]);
            }
        }
    }
}

/// Two different texts have two different encodings.
pub proof fn lemma_encode_ne(a: Seq<char>, b: Seq<char>)
    requires
        a != b,
    ensures
        encode_utf8(a) != encode_utf8(b),
{
    if encode_utf8(a) == encode_utf8(b) {
        encode_utf8_decode_utf8(a);
        encode_utf8_decode_utf8(b);
    }
}

/// The views of the raw values of a slice of header values.
pub open spec fn views_of(values: Seq<HeaderValue>) -> Seq<Seq<u8>> {
    values.map_values(|v: HeaderValue| v@)
}

} // verus!
