use vstd::prelude::*;

verus! {

/// The single error of the decode path: the sequence of raw values cannot be
/// decoded into the requested header type (wrong value count, text that is not
/// visible ASCII where text is required, a malformed URI, malformed JSON, or a
/// token outside a closed set).
#[derive(Debug, Clone, Copy, PartialEq, Eq, Structural)]
pub struct InvalidHeader;

} // verus!
