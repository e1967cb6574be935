//! Typed codecs for the htmx request and response headers.
//!
//! Each header type decodes from the ordered sequence of raw wire values that
//! a message carries under the header's name, and encodes by appending raw
//! values to an outgoing sequence. The contracts of the codecs pin down, for
//! every input, when decoding succeeds and what value either direction
//! produces.

use vstd::prelude::*;
use vstd::utf8::*;

pub mod error;
pub mod headers;
pub mod json;
pub mod uri;
pub mod value;

use crate::error::InvalidHeader;
use crate::value::{lemma_visible_text_bytes, HeaderValue};

verus! {

/// How a response is swapped in relative to the target of a request: a closed
/// set of eight strategies, each with a fixed wire token.
#[derive(Debug, Clone, Copy, PartialEq, Eq, Hash, Structural)]
pub enum Swap {
    /// Replace the inner html of the target element.
    InnerHtml,
    /// Replace the entire target element with the response.
    OuterHtml,
    /// Insert the response before the target element.
    BeforeBegin,
    /// Insert the response before the first child of the target element.
    AfterBegin,
    /// Insert the response after the last child of the target element.
    BeforeEnd,
    /// Insert the response after the target element.
    AfterEnd,
    /// Delete the target element regardless of the response.
    Delete,
    /// Do not append content from the response.
    NoSwap,
}

impl Swap {
    /// The fixed wire token of this strategy.
    pub open spec fn token_spec(self) -> Seq<char> {
        match self {
            Swap::InnerHtml => "innerHtml"@,
            Swap::OuterHtml => "outerHtml"@,
            Swap::BeforeBegin => "beforebegin"@,
            Swap::AfterBegin => "afterbegin"@,
            Swap::BeforeEnd => "beforeend"@,
            Swap::AfterEnd => "afterend"@,
            Swap::Delete => "delete"@,
            Swap::NoSwap => "none"@,
        }
    }

    /// The fixed wire token of this strategy.
    pub fn token(self) -> (r: &'static str)
        ensures
            r@ == self.token_spec(),
    {
        match self {
            Swap::InnerHtml => "innerHtml",
            Swap::OuterHtml => "outerHtml",
            Swap::BeforeBegin => "beforebegin",
            Swap::AfterBegin => "afterbegin",
            Swap::BeforeEnd => "beforeend",
            Swap::AfterEnd => "afterend",
            Swap::Delete => "delete",
            Swap::NoSwap => "none",
        }
    }

    /// Reads a strategy from raw bytes: an exact byte match against the eight
    /// tokens, with no trimming and no case folding.
    pub fn try_from(bytes: &[u8]) -> (r: Result<Swap, InvalidHeader>)
        ensures
            r is Ok <==> swap_of_bytes(bytes@) is Some,
            r is Ok ==> Some(r->Ok_0) == swap_of_bytes(bytes@),
    {
        if crate::value::bytes_eq(bytes, "innerHtml".as_bytes()) {
            Ok(Swap::InnerHtml)
        } else if crate::value::bytes_eq(bytes, "outerHtml".as_bytes()) {
            Ok(Swap::OuterHtml)
        } else if crate::value::bytes_eq(bytes, "beforebegin".as_bytes()) {
            Ok(Swap::BeforeBegin)
        } else if crate::value::bytes_eq(bytes, "afterbegin".as_bytes()) {
            Ok(Swap::AfterBegin)
        } else if crate::value::bytes_eq(bytes, "beforeend".as_bytes()) {
            Ok(Swap::BeforeEnd)
        } else if crate::value::bytes_eq(bytes, "afterend".as_bytes()) {
            Ok(Swap::AfterEnd)
        } else if crate::value::bytes_eq(bytes, "delete".as_bytes()) {
            Ok(Swap::Delete)
        } else if crate::value::bytes_eq(bytes, "none".as_bytes()) {
            Ok(Swap::NoSwap)
        } else {
            Err(InvalidHeader)
        }
    }
}

/// The strategy whose token encodes to exactly the given bytes, if any.
pub open spec fn swap_of_bytes(b: Seq<u8>) -> Option<Swap> {
    if b == encode_utf8(Swap::InnerHtml.token_spec()) {
        Some(Swap::InnerHtml)
    } else if b == encode_utf8(Swap::OuterHtml.token_spec()) {
        Some(Swap::OuterHtml)
    } else if b == encode_utf8(Swap::BeforeBegin.token_spec()) {
        Some(Swap::BeforeBegin)
    } else if b == encode_utf8(Swap::AfterBegin.token_spec()) {
        Some(Swap::AfterBegin)
    } else if b == encode_utf8(Swap::BeforeEnd.token_spec()) {
        Some(Swap::BeforeEnd)
    } else if b == encode_utf8(Swap::AfterEnd.token_spec()) {
        Some(Swap::AfterEnd)
    } else if b == encode_utf8(Swap::Delete.token_spec()) {
        Some(Swap::Delete)
    } else if b == encode_utf8(Swap::NoSwap.token_spec()) {
        Some(Swap::NoSwap)
    } else {
        Option::None
    }
}

impl HeaderValue {
    /// The raw value carrying the token of the given strategy.
    pub fn from(swap: Swap) -> (r: HeaderValue)
        ensures
            r@ == encode_utf8(swap.token_spec()),
            r.wf(),
    {
        proof {
            lemma_swap_tokens_visible();
        }
        let token = swap.token();
        match HeaderValue::from_text(token) {
            Ok(v) => v,
            Err(_) => {
                proof {
                    lemma_visible_text_bytes(swap.token_spec());
                    assert(false);
                }
                vstd::pervasive::unreached()
            },
        }
    }
}

/// Every wire token of the eight strategies is visible ASCII text.
pub proof fn lemma_swap_tokens_visible()
    ensures
        forall|s: Swap| #[trigger] crate::value::visible_text(s.token_spec()),
{
    reveal_strlit("innerHtml");
    reveal_strlit("outerHtml");
    reveal_strlit("beforebegin");
    reveal_strlit("afterbegin");
    reveal_strlit("beforeend");
    reveal_strlit("afterend");
    reveal_strlit("delete");
    reveal_strlit("none");
    assert forall|s: Swap| #[trigger] crate::value::visible_text(s.token_spec()) by {
        match s {
            Swap::InnerHtml => assert(crate::value::visible_text("innerHtml"@)),
            Swap::OuterHtml => assert(crate::value::visible_text("outerHtml"@)),
            Swap::BeforeBegin => assert(crate::value::visible_text("beforebegin"@)),
            Swap::AfterBegin => assert(crate::value::visible_text("afterbegin"@)),
            Swap::BeforeEnd => assert(crate::value::visible_text("beforeend"@)),
            Swap::AfterEnd => assert(crate::value::visible_text("afterend"@)),
            Swap::Delete => assert(crate::value::visible_text("delete"@)),
            Swap::NoSwap => assert(crate::value::visible_text("none"@)),
        }
    }
}

/// Reading back the token of any strategy yields that strategy: the mapping
/// between the eight variants and the eight tokens is a bijection.
pub proof fn lemma_swap_round_trip(s: Swap)
    ensures
        swap_of_bytes(encode_utf8(s.token_spec())) == Some(s),
{
    reveal_strlit("innerHtml");
    reveal_strlit("outerHtml");
    reveal_strlit("beforebegin");
    reveal_strlit("afterbegin");
    reveal_strlit("beforeend");
    reveal_strlit("afterend");
    reveal_strlit("delete");
    reveal_strlit("none");
    match s {
        Swap::InnerHtml => {
        },
        Swap::OuterHtml => {
            crate::value::lemma_encode_ne("innerHtml"@, "outerHtml"@);
        },
        Swap::BeforeBegin => {
            crate::value::lemma_encode_ne("innerHtml"@, "beforebegin"@);
            crate::value::lemma_encode_ne("outerHtml"@, "beforebegin"@);
        },
        Swap::AfterBegin => {
            crate::value::lemma_encode_ne("innerHtml"@, "afterbegin"@);
            crate::value::lemma_encode_ne("outerHtml"@, "afterbegin"@);
            crate::value::lemma_encode_ne("beforebegin"@, "afterbegin"@);
        },
        Swap::BeforeEnd => {
            crate::value::lemma_encode_ne("innerHtml"@, "beforeend"@);
            crate::value::lemma_encode_ne("outerHtml"@, "beforeend"@);
            crate::value::lemma_encode_ne("beforebegin"@, "beforeend"@);
            crate::value::lemma_encode_ne("afterbegin"@, "beforeend"@);
        },
        Swap::AfterEnd => {
            crate::value::lemma_encode_ne("innerHtml"@, "afterend"@);
            crate::value::lemma_encode_ne("outerHtml"@, "afterend"@);
            crate::value::lemma_encode_ne("beforebegin"@, "afterend"@);
            crate::value::lemma_encode_ne("afterbegin"@, "afterend"@);
            crate::value::lemma_encode_ne("beforeend"@, "afterend"@);
        },
        Swap::Delete => {
            crate::value::lemma_encode_ne("innerHtml"@, "delete"@);
            crate::value::lemma_encode_ne("outerHtml"@, "delete"@);
            crate::value::lemma_encode_ne("beforebegin"@, "delete"@);
            crate::value::lemma_encode_ne("afterbegin"@, "delete"@);
            crate::value::lemma_encode_ne("beforeend"@, "delete"@);
            crate::value::lemma_encode_ne("afterend"@, "delete"@);
        },
        Swap::NoSwap => {
            crate::value::lemma_encode_ne("innerHtml"@, "none"@);
            crate::value::lemma_encode_ne("outerHtml"@, "none"@);
            crate::value::lemma_encode_ne("beforebegin"@, "none"@);
            crate::value::lemma_encode_ne("afterbegin"@, "none"@);
            crate::value::lemma_encode_ne("beforeend"@, "none"@);
            crate::value::lemma_encode_ne("afterend"@, "none"@);
            crate::value::lemma_encode_ne("delete"@, "none"@);
        },
    }
}

} // verus!
