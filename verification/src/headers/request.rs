//! The htmx request headers: presence flags, opaque strings, and the current
//! URL of the browser.

use vstd::prelude::*;
use vstd::utf8::encode_utf8;

use crate::error::InvalidHeader;
use crate::headers::{
    appended, decode_string_header, decode_true_header, decode_uri_header, encode_string_header,
    encode_true_header, encode_uri_header, spec_decode_string, spec_decode_true, spec_decode_uri,
};
use crate::uri::{fragment_start, uri_byte_ok, Uri};
use crate::value::{views_of, visible_text, wire_text, HeaderValue};

verus! {

/// Indicates that the request is via an element using hx-boost.
#[derive(Debug, Clone, Copy, PartialEq, Eq, Structural)]
pub struct HxBoosted;

impl HxBoosted {
    /// The wire name of this header.
    pub fn name() -> (r: &'static str)
        ensures
            r@ == "hx-boosted"@,
    {
        "hx-boosted"
    }

    /// Decodes from the raw values carried under this header's name.
    pub fn decode(values: &[HeaderValue]) -> (r: Result<Self, InvalidHeader>)
        ensures
            r is Ok <==> spec_decode_true(views_of(values@)),
    {
        match decode_true_header(values) {
            Ok(_) => Ok(HxBoosted),
            Err(e) => Err(e),
        }
    }

    /// Appends this header's raw value to an outgoing sequence.
    pub fn encode(&self, out: &mut Vec<HeaderValue>)
        ensures
            appended(old(out)@, final(out)@, encode_utf8("true"@)),
    {
        encode_true_header(out)
    }
}

/// Set when the request is for history restoration after a miss in the local
/// history cache.
#[derive(Debug, Clone, Copy, PartialEq, Eq, Structural)]
pub struct HxHistoryRestoreRequest;

impl HxHistoryRestoreRequest {
    /// The wire name of this header.
    pub fn name() -> (r: &'static str)
        ensures
            r@ == "hx-history-restore-request"@,
    {
        "hx-history-restore-request"
    }

    /// Decodes from the raw values carried under this header's name.
    pub fn decode(values: &[HeaderValue]) -> (r: Result<Self, InvalidHeader>)
        ensures
            r is Ok <==> spec_decode_true(views_of(values@)),
    {
        match decode_true_header(values) {
            Ok(_) => Ok(HxHistoryRestoreRequest),
            Err(e) => Err(e),
        }
    }

    /// Appends this header's raw value to an outgoing sequence.
    pub fn encode(&self, out: &mut Vec<HeaderValue>)
        ensures
            appended(old(out)@, final(out)@, encode_utf8("true"@)),
    {
        encode_true_header(out)
    }
}

/// Always set on htmx-issued requests.
#[derive(Debug, Clone, Copy, PartialEq, Eq, Structural)]
pub struct HxRequest;

impl HxRequest {
    /// The wire name of this header.
    pub fn name() -> (r: &'static str)
        ensures
            r@ == "hx-request"@,
    {
        "hx-request"
    }

    /// Decodes from the raw values carried under this header's name.
    pub fn decode(values: &[HeaderValue]) -> (r: Result<Self, InvalidHeader>)
        ensures
            r is Ok <==> spec_decode_true(views_of(values@)),
    {
        match decode_true_header(values) {
            Ok(_) => Ok(HxRequest),
            Err(e) => Err(e),
        }
    }

    /// Appends this header's raw value to an outgoing sequence.
    pub fn encode(&self, out: &mut Vec<HeaderValue>)
        ensures
            appended(old(out)@, final(out)@, encode_utf8("true"@)),
    {
        encode_true_header(out)
    }
}

/// The user response to an hx-prompt.
#[derive(Debug, Clone, PartialEq, Eq)]
pub struct HxPrompt(pub String);

impl View for HxPrompt {
    type V = Seq<char>;

    open spec fn view(&self) -> Seq<char> {
        self.0@
    }
}

impl HxPrompt {
    /// The wire name of this header.
    pub fn name() -> (r: &'static str)
        ensures
            r@ == "hx-prompt"@,
    {
        "hx-prompt"
    }

    /// Decodes from the raw values carried under this header's name.
    pub fn decode(values: &[HeaderValue]) -> (r: Result<Self, InvalidHeader>)
        ensures
            r is Ok <==> spec_decode_string(views_of(values@)) is Some,
            r is Ok ==> Some(r->Ok_0@) == spec_decode_string(views_of(values@)),
            r is Ok && crate::value::wf_value_bytes(values@[0]@) ==> wire_text(r->Ok_0@),
    {
        match decode_string_header(values) {
            Ok(s) => Ok(HxPrompt(s)),
            Err(e) => Err(e),
        }
    }

    /// Appends this header's raw value to an outgoing sequence.
    pub fn encode(&self, out: &mut Vec<HeaderValue>)
        requires
            wire_text(self@),
        ensures
            appended(old(out)@, final(out)@, encode_utf8(self@)),
    {
        encode_string_header(self.0.as_str(), out)
    }
}

/// The `id` of the target element, if it exists.
#[derive(Debug, Clone, PartialEq, Eq)]
pub struct HxTarget(pub String);

impl View for HxTarget {
    type V = Seq<char>;

    open spec fn view(&self) -> Seq<char> {
        self.0@
    }
}

impl HxTarget {
    /// The wire name of this header.
    pub fn name() -> (r: &'static str)
        ensures
            r@ == "hx-target"@,
    {
        "hx-target"
    }

    /// Decodes from the raw values carried under this header's name.
    pub fn decode(values: &[HeaderValue]) -> (r: Result<Self, InvalidHeader>)
        ensures
            r is Ok <==> spec_decode_string(views_of(values@)) is Some,
            r is Ok ==> Some(r->Ok_0@) == spec_decode_string(views_of(values@)),
            r is Ok && crate::value::wf_value_bytes(values@[0]@) ==> wire_text(r->Ok_0@),
    {
        match decode_string_header(values) {
            Ok(s) => Ok(HxTarget(s)),
            Err(e) => Err(e),
        }
    }

    /// Appends this header's raw value to an outgoing sequence.
    pub fn encode(&self, out: &mut Vec<HeaderValue>)
        requires
            wire_text(self@),
        ensures
            appended(old(out)@, final(out)@, encode_utf8(self@)),
    {
        encode_string_header(self.0.as_str(), out)
    }
}

/// The `name` of the triggered element, if it exists.
#[derive(Debug, Clone, PartialEq, Eq)]
pub struct HxTriggerName(pub String);

impl View for HxTriggerName {
    type V = Seq<char>;

    open spec fn view(&self) -> Seq<char> {
        self.0@
    }
}

impl HxTriggerName {
    /// The wire name of this header.
    pub fn name() -> (r: &'static str)
        ensures
            r@ == "hx-trigger-name"@,
    {
        "hx-trigger-name"
    }

    /// Decodes from the raw values carried under this header's name.
    pub fn decode(values: &[HeaderValue]) -> (r: Result<Self, InvalidHeader>)
        ensures
            r is Ok <==> spec_decode_string(views_of(values@)) is Some,
            r is Ok ==> Some(r->Ok_0@) == spec_decode_string(views_of(values@)),
            r is Ok && crate::value::wf_value_bytes(values@[0]@) ==> wire_text(r->Ok_0@),
    {
        match decode_string_header(values) {
            Ok(s) => Ok(HxTriggerName(s)),
            Err(e) => Err(e),
        }
    }

    /// Appends this header's raw value to an outgoing sequence.
    pub fn encode(&self, out: &mut Vec<HeaderValue>)
        requires
            wire_text(self@),
        ensures
            appended(old(out)@, final(out)@, encode_utf8(self@)),
    {
        encode_string_header(self.0.as_str(), out)
    }
}

/// The `id` of the triggered element, if it exists.
#[derive(Debug, Clone, PartialEq, Eq)]
pub struct HxTrigger(pub String);

impl View for HxTrigger {
    type V = Seq<char>;

    open spec fn view(&self) -> Seq<char> {
        self.0@
    }
}

impl HxTrigger {
    /// The wire name of this header.
    pub fn name() -> (r: &'static str)
        ensures
            r@ == "hx-trigger"@,
    {
        "hx-trigger"
    }

    /// Decodes from the raw values carried under this header's name.
    pub fn decode(values: &[HeaderValue]) -> (r: Result<Self, InvalidHeader>)
        ensures
            r is Ok <==> spec_decode_string(views_of(values@)) is Some,
            r is Ok ==> Some(r->Ok_0@) == spec_decode_string(views_of(values@)),
            r is Ok && crate::value::wf_value_bytes(values@[0]@) ==> wire_text(r->Ok_0@),
    {
        match decode_string_header(values) {
            Ok(s) => Ok(HxTrigger(s)),
            Err(e) => Err(e),
        }
    }

    /// Appends this header's raw value to an outgoing sequence.
    pub fn encode(&self, out: &mut Vec<HeaderValue>)
        requires
            wire_text(self@),
        ensures
            appended(old(out)@, final(out)@, encode_utf8(self@)),
    {
        encode_string_header(self.0.as_str(), out)
    }
}

/// The current URL of the browser.
#[derive(Debug, Clone, PartialEq, Eq)]
pub struct HxCurrentUrl(pub Uri);

impl View for HxCurrentUrl {
    type V = Seq<char>;

    open spec fn view(&self) -> Seq<char> {
        self.0@
    }
}

impl HxCurrentUrl {
    /// The wire name of this header.
    pub fn name() -> (r: &'static str)
        ensures
            r@ == "hx-current-url"@,
    {
        "hx-current-url"
    }

    /// Decodes from the raw values carried under this header's name: an
    /// empty value fails, as does one holding a control byte, a space or a
    /// delete before a fragment.
    pub fn decode(values: &[HeaderValue]) -> (r: Result<Self, InvalidHeader>)
        ensures
            r is Ok <==> spec_decode_uri(views_of(values@)) is Some,
            r is Ok ==> r->Ok_0.0.wf() && Some(r->Ok_0@) == spec_decode_uri(views_of(values@)),
            r is Ok ==> values@[0]@.len() > 0 && (forall|i: int|
                0 <= i < fragment_start(values@[0]@) ==> uri_byte_ok(#[trigger] values@[0]@[i])),
    {
        match decode_uri_header(values) {
            Ok(u) => Ok(HxCurrentUrl(u)),
            Err(e) => Err(e),
        }
    }

    /// Appends this header's raw value to an outgoing sequence.
    pub fn encode(&self, out: &mut Vec<HeaderValue>)
        requires
            self.0.wf(),
        ensures
            appended(old(out)@, final(out)@, encode_utf8(self@)),
    {
        encode_uri_header(&self.0, out)
    }
}

} // verus!
