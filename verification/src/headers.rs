//! The shared codec engines of the header families. Each header type keeps
//! its declaration small by delegating to one of these: the boolean-sentinel
//! family, the opaque-string family, or the URI family. The variant and JSON
//! codecs live with their header types.

use vstd::prelude::*;
use vstd::utf8::encode_utf8;

use crate::error::InvalidHeader;
use crate::uri::{fragment_start, lemma_uri_wf, uri_byte_ok, uri_canon, Uri};
use crate::value::{
    lemma_visible_text_bytes, lemma_wf_bytes_wire_text, lemma_wire_text_bytes, views_of,
    visible_text, wf_value_bytes, wire_text, HeaderValue,
};

pub mod location;
pub mod request;
pub mod response;

verus! {

/// The new output sequence extends the old one by exactly one value holding
/// the given bytes, which are well formed for the wire.
pub open spec fn appended(
    old_out: Seq<HeaderValue>,
    new_out: Seq<HeaderValue>,
    b: Seq<u8>,
) -> bool {
    &&& new_out.len() == old_out.len() + 1
    &&& forall|i: int| 0 <= i < old_out.len() ==> new_out[i] == old_out[i]
    &&& new_out[old_out.len() as int]@ == b
    &&& new_out[old_out.len() as int].wf()
}

/// The boolean-sentinel wire format: exactly one value, holding exactly the
/// literal token `true`.
pub open spec fn spec_decode_true(values: Seq<Seq<u8>>) -> bool {
    values.len() == 1 && values[0] == encode_utf8("true"@)
}

/// Decodes a boolean-sentinel header: succeeds exactly on a single value
/// equal to the literal `true`.
pub fn decode_true_header(values: &[HeaderValue]) -> (r: Result<(), InvalidHeader>)
    ensures
        r is Ok <==> spec_decode_true(views_of(values@)),
{
    if values.len() != 1 {
        return Err(InvalidHeader);
    }
    if values[0].eq_text("true") {
        Ok(())
    } else {
        Err(InvalidHeader)
    }
}

/// Encodes a boolean-sentinel header: appends the single literal `true`.
pub fn encode_true_header(out: &mut Vec<HeaderValue>)
    ensures
        appended(old(out)@, final(out)@, encode_utf8("true"@)),
{
    proof {
        reveal_strlit("true");
        assert(visible_text("true"@));
        lemma_visible_text_bytes("true"@);
    }
    match HeaderValue::from_text("true") {
        Ok(v) => out.push(v),
        Err(_) => {
            proof {
                assert(false);
            }
            vstd::pervasive::unreached()
        },
    }
}

/// The opaque-string wire format: exactly one value holding valid UTF-8,
/// yielding the text it encodes.
pub open spec fn spec_decode_string(values: Seq<Seq<u8>>) -> Option<Seq<char>> {
    if values.len() == 1 && vstd::utf8::valid_utf8(values[0]) {
        Some(vstd::utf8::decode_utf8(values[0]))
    } else {
        None
    }
}

/// Decodes an opaque-string header: succeeds exactly on a single value of
/// valid UTF-8, read back verbatim as text.
pub fn decode_string_header(values: &[HeaderValue]) -> (r: Result<String, InvalidHeader>)
    ensures
        r is Ok <==> spec_decode_string(views_of(values@)) is Some,
        r is Ok ==> Some(r->Ok_0@) == spec_decode_string(views_of(values@)),
        r is Ok ==> encode_utf8(r->Ok_0@) == values@[0]@,
        r is Ok && wf_value_bytes(values@[0]@) ==> wire_text(r->Ok_0@),
{
    if values.len() != 1 {
        return Err(InvalidHeader);
    }
    match values[0].to_utf8_text() {
        Some(s) => {
            proof {
                if wf_value_bytes(values@[0]@) {
                    lemma_wf_bytes_wire_text(values@[0]@);
                }
            }
            Ok(s)
        },
        None => Err(InvalidHeader),
    }
}

/// Encodes an opaque-string header: appends the text verbatim as one value.
pub fn encode_string_header(s: &str, out: &mut Vec<HeaderValue>)
    requires
        wire_text(s@),
    ensures
        appended(old(out)@, final(out)@, encode_utf8(s@)),
{
    proof {
        lemma_wire_text_bytes(s@);
    }
    match HeaderValue::from_text(s) {
        Ok(v) => out.push(v),
        Err(_) => {
            proof {
                assert(false);
            }
            vstd::pervasive::unreached()
        },
    }
}

/// The URI wire format: exactly one value whose bytes parse as a URI,
/// yielding the canonical URI text.
pub open spec fn spec_decode_uri(values: Seq<Seq<u8>>) -> Option<Seq<char>> {
    if values.len() == 1 {
        uri_canon(values[0])
    } else {
        None
    }
}

/// Decodes a URI header: succeeds exactly on a single value that parses as a
/// URI, so never on an empty value or on one holding a control byte, a space
/// or a delete before a fragment.
pub fn decode_uri_header(values: &[HeaderValue]) -> (r: Result<Uri, InvalidHeader>)
    ensures
        r is Ok <==> spec_decode_uri(views_of(values@)) is Some,
        r is Ok ==> r->Ok_0.wf() && Some(r->Ok_0@) == spec_decode_uri(views_of(values@)),
        r is Ok ==> values@[0]@.len() > 0 && (forall|i: int|
            0 <= i < fragment_start(values@[0]@) ==> uri_byte_ok(#[trigger] values@[0]@[i])),
{
    if values.len() != 1 {
        return Err(InvalidHeader);
    }
    Uri::parse(values[0].as_bytes())
}

/// Encodes a URI header: appends the canonical URI text as one value.
pub fn encode_uri_header(u: &Uri, out: &mut Vec<HeaderValue>)
    requires
        u.wf(),
    ensures
        appended(old(out)@, final(out)@, encode_utf8(u@)),
{
    proof {
        lemma_uri_wf(*u);
        lemma_wire_text_bytes(u@);
    }
    match HeaderValue::from_text(u.as_text()) {
        Ok(v) => out.push(v),
        Err(_) => {
            proof {
                assert(false);
            }
            vstd::pervasive::unreached()
        },
    }
}

/// A boolean-sentinel header decodes its own encoding.
pub proof fn lemma_true_header_round_trip()
    ensures
        spec_decode_true(seq![encode_utf8("true"@)]),
{
}

/// An opaque-string header decodes its own encoding back to the same text,
/// for any text at all.
pub proof fn lemma_string_header_round_trip(t: Seq<char>)
    ensures
        spec_decode_string(seq![encode_utf8(t)]) == Some(t),
{
    vstd::utf8::encode_utf8_valid_utf8(t);
    vstd::utf8::encode_utf8_decode_utf8(t);
}

/// A URI header decodes its own encoding back to the same canonical text,
/// for any well-formed URI.
pub proof fn lemma_uri_header_round_trip(u: Uri)
    requires
        u.wf(),
    ensures
        spec_decode_uri(seq![encode_utf8(u@)]) == Some(u@),
{
    lemma_uri_wf(u);
}

} // verus!
