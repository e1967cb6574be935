//! The library's model of a URI: the canonical text that the HTTP stack's
//! parser accepts and renders back. A value of [`Uri`] always holds such a
//! canonical text, so rendering it and parsing the rendering yields the same
//! value again.

use vstd::prelude::*;
use vstd::string::StringSliceAdditionalSpecFns;
use vstd::utf8::encode_utf8;

use crate::error::InvalidHeader;
use crate::value::wire_text;

verus! {

/// The canonical text of the URI that the given bytes parse into, if they
/// parse at all: what http's parser accepts, rendered back by its writer.
pub uninterp spec fn uri_canon(bytes: Seq<u8>) -> Option<Seq<char>>;

/// A byte the URI parser accepts into a component: no control byte, no
/// space, no delete. Bytes from 128 on can appear inside UTF-8 text in the
/// path and query.
pub open spec fn uri_byte_ok(b: u8) -> bool {
    32 < b && b != 127
}

/// Where a fragment would begin: the index of the first number sign, or the
/// length when there is none. The parser validates everything before it and
/// discards everything from it on.
pub open spec fn fragment_start(b: Seq<u8>) -> int
    decreases b.len(),
{
    if b.len() == 0 {
        0
    } else if b[0] == 35 {
        0
    } else {
        1 + fragment_start(b.drop_first())
    }
}

/// Relies on http::Uri: `TryFrom<&[u8]>` rejects empty input and validates
/// every byte before a fragment against component tables that hold no
/// control byte, no space and no delete; `Display` renders the parsed URI as
/// text (free of those characters) that parses back to a URI rendering the
/// same way.
#[verifier::external_body]
fn parse_uri_canon(bytes: &[u8]) -> (r: Option<String>)
    ensures
        r is Some <==> uri_canon(bytes@) is Some,
        r is Some ==> Some(r->Some_0@) == uri_canon(bytes@),
        r is Some ==> wire_text(r->Some_0@),
        r is Some ==> uri_canon(encode_utf8(r->Some_0@)) == Some(r->Some_0@),
        r is Some ==> bytes@.len() > 0,
        r is Some ==> forall|i: int|
            0 <= i < fragment_start(bytes@) ==> uri_byte_ok(#[trigger] bytes@[i]),
{
    match http::Uri::try_from(bytes) {
        Ok(u) => Some(u.to_string()),
        Err(_) => None,
    }
}

/// A fragment begins no later than the end of the bytes.
pub proof fn lemma_fragment_start_le(b: Seq<u8>)
    ensures
        0 <= fragment_start(b) <= b.len(),
    decreases b.len(),
{
    if b.len() > 0 && b[0] != 35 {
        lemma_fragment_start_le(b.drop_first());
    }
}

/// A parsed URI, held as its canonical text.
#[derive(Debug, Clone, PartialEq, Eq)]
pub struct Uri {
    text: String,
}

impl View for Uri {
    type V = Seq<char>;

    closed spec fn view(&self) -> Seq<char> {
        self.text@
    }
}

impl Uri {
    /// The text is canonical: it can be carried as a header value and parses
    /// back to itself.
    pub closed spec fn wf(&self) -> bool {
        &&& uri_canon(encode_utf8(self@)) == Some(self@)
        &&& wire_text(self@)
    }

    /// Parses a URI from raw bytes. Empty input fails, and so does any input
    /// holding a control byte, a space or a delete before a fragment.
    pub fn parse(bytes: &[u8]) -> (r: Result<Uri, InvalidHeader>)
        ensures
            r is Ok <==> uri_canon(bytes@) is Some,
            r is Ok ==> r->Ok_0.wf() && Some(r->Ok_0@) == uri_canon(bytes@),
            r is Ok ==> bytes@.len() > 0 && (forall|i: int|
                0 <= i < fragment_start(bytes@) ==> uri_byte_ok(#[trigger] bytes@[i])),
    {
        match parse_uri_canon(bytes) {
            Some(text) => Ok(Uri { text }),
            None => Err(InvalidHeader),
        }
    }

    /// Parses a URI from text.
    pub fn parse_text(s: &str) -> (r: Result<Uri, InvalidHeader>)
        ensures
            r is Ok <==> uri_canon(encode_utf8(s@)) is Some,
            r is Ok ==> r->Ok_0.wf() && Some(r->Ok_0@) == uri_canon(encode_utf8(s@)),
    {
        Uri::parse(s.as_bytes())
    }

    /// The canonical text of this URI.
    pub fn as_text(&self) -> (r: &str)
        ensures
            r@ == self@,
    {
        self.text.as_str()
    }
}

/// What holds of every well-formed URI: its text can be carried as a header
/// value and parses back to itself.
pub proof fn lemma_uri_wf(u: Uri)
    requires
        u.wf(),
    ensures
        uri_canon(encode_utf8(u@)) == Some(u@),
        wire_text(u@),
{
}

} // verus!
