//! The htmx response headers: redirects, refresh and swap control, the
//! history-modification family, the trigger family, and the structured
//! location header.

use vstd::prelude::*;
use vstd::string::{StrSliceExecFns, StringExecFns};
use vstd::utf8::encode_utf8;

use crate::error::InvalidHeader;
use crate::headers::{
    appended, decode_string_header, decode_true_header, decode_uri_header, encode_string_header,
    encode_true_header, encode_uri_header, spec_decode_string, spec_decode_true, spec_decode_uri,
};
use crate::json::{
    build_object_text, bytes_lt_exec, canon_value_text, entries_view, json_obj_entries,
    json_string_text, json_value_canon, key_lt, lemma_sorted_pairs, obj_text, obj_wf,
    parse_object, text_chars_ok,
};
use crate::uri::{
    fragment_start, lemma_fragment_start_le, lemma_uri_wf, uri_byte_ok, uri_canon, Uri,
};
use crate::value::{
    check_scalar_chars, views_of, visible_char, visible_text, wire_text, HeaderValue,
};
use crate::Swap;

verus! {

/// Can be used to do a client-side redirect to a new location.
#[derive(Debug, Clone, PartialEq, Eq)]
pub struct HxRedirect(pub Uri);

impl View for HxRedirect {
    type V = Seq<char>;

    open spec fn view(&self) -> Seq<char> {
        self.0@
    }
}

impl HxRedirect {
    /// The wire name of this header.
    pub fn name() -> (r: &'static str)
        ensures
            r@ == "hx-redirect"@,
    {
        "hx-redirect"
    }

    /// Decodes from the raw values carried under this header's name: an
    /// empty value fails, as does one holding a control byte, a space or a
    /// delete before a fragment.
    pub fn decode(values: &[HeaderValue]) -> (r: Result<Self, InvalidHeader>)
        ensures
            r is Ok <==> spec_decode_uri(views_of(values@)) is Some,
            r is Ok ==> r->Ok_0.0.wf() && Some(r->Ok_0@) == spec_decode_uri(views_of(values@)),
            r is Ok ==> values@[0]@.len() > 0 && (forall|i: int|
                0 <= i < fragment_start(values@[0]@) ==> uri_byte_ok(#[trigger] values@[0]@[i])),
    {
        match decode_uri_header(values) {
            Ok(u) => Ok(HxRedirect(u)),
            Err(e) => Err(e),
        }
    }

    /// Appends this header's raw value to an outgoing sequence.
    pub fn encode(&self, out: &mut Vec<HeaderValue>)
        requires
            self.0.wf(),
        ensures
            appended(old(out)@, final(out)@, encode_utf8(self@)),
    {
        encode_uri_header(&self.0, out)
    }
}

/// If set to the literal `true`, the client side does a full page refresh.
#[derive(Debug, Clone, Copy, PartialEq, Eq, Structural)]
pub struct HxRefresh;

impl HxRefresh {
    /// The wire name of this header.
    pub fn name() -> (r: &'static str)
        ensures
            r@ == "hx-refresh"@,
    {
        "hx-refresh"
    }

    /// Decodes from the raw values carried under this header's name.
    pub fn decode(values: &[HeaderValue]) -> (r: Result<Self, InvalidHeader>)
        ensures
            r is Ok <==> spec_decode_true(views_of(values@)),
    {
        match decode_true_header(values) {
            Ok(_) => Ok(HxRefresh),
            Err(e) => Err(e),
        }
    }

    /// Appends this header's raw value to an outgoing sequence.
    pub fn encode(&self, out: &mut Vec<HeaderValue>)
        ensures
            appended(old(out)@, final(out)@, encode_utf8("true"@)),
    {
        encode_true_header(out)
    }
}

/// A CSS selector that updates the target of the content update.
#[derive(Debug, Clone, PartialEq, Eq)]
pub struct HxRetarget(pub String);

impl View for HxRetarget {
    type V = Seq<char>;

    open spec fn view(&self) -> Seq<char> {
        self.0@
    }
}

impl HxRetarget {
    /// The wire name of this header.
    pub fn name() -> (r: &'static str)
        ensures
            r@ == "hx-retarget"@,
    {
        "hx-retarget"
    }

    /// Decodes from the raw values carried under this header's name.
    pub fn decode(values: &[HeaderValue]) -> (r: Result<Self, InvalidHeader>)
        ensures
            r is Ok <==> spec_decode_string(views_of(values@)) is Some,
            r is Ok ==> Some(r->Ok_0@) == spec_decode_string(views_of(values@)),
            r is Ok && crate::value::wf_value_bytes(values@[0]@) ==> wire_text(r->Ok_0@),
    {
        match decode_string_header(values) {
            Ok(s) => Ok(HxRetarget(s)),
            Err(e) => Err(e),
        }
    }

    /// Appends this header's raw value to an outgoing sequence.
    pub fn encode(&self, out: &mut Vec<HeaderValue>)
        requires
            wire_text(self@),
        ensures
            appended(old(out)@, final(out)@, encode_utf8(self@)),
    {
        encode_string_header(self.0.as_str(), out)
    }
}

/// A CSS selector that chooses which part of the response is swapped in.
#[derive(Debug, Clone, PartialEq, Eq)]
pub struct HxReselect(pub String);

impl View for HxReselect {
    type V = Seq<char>;

    open spec fn view(&self) -> Seq<char> {
        self.0@
    }
}

impl HxReselect {
    /// The wire name of this header.
    pub fn name() -> (r: &'static str)
        ensures
            r@ == "hx-reselect"@,
    {
        "hx-reselect"
    }

    /// Decodes from the raw values carried under this header's name.
    pub fn decode(values: &[HeaderValue]) -> (r: Result<Self, InvalidHeader>)
        ensures
            r is Ok <==> spec_decode_string(views_of(values@)) is Some,
            r is Ok ==> Some(r->Ok_0@) == spec_decode_string(views_of(values@)),
            r is Ok && crate::value::wf_value_bytes(values@[0]@) ==> wire_text(r->Ok_0@),
    {
        match decode_string_header(values) {
            Ok(s) => Ok(HxReselect(s)),
            Err(e) => Err(e),
        }
    }

    /// Appends this header's raw value to an outgoing sequence.
    pub fn encode(&self, out: &mut Vec<HeaderValue>)
        requires
            wire_text(self@),
        ensures
            appended(old(out)@, final(out)@, encode_utf8(self@)),
    {
        encode_string_header(self.0.as_str(), out)
    }
}

/// The swap-strategy wire format: exactly one value holding one of the eight
/// tokens.
pub open spec fn spec_decode_reswap(values: Seq<Seq<u8>>) -> Option<Swap> {
    if values.len() == 1 {
        crate::swap_of_bytes(values[0])
    } else {
        None
    }
}

/// Specifies how the response will be swapped in.
#[derive(Debug, Clone, Copy, PartialEq, Eq, Structural)]
pub struct HxReswap(pub Swap);

impl HxReswap {
    /// The wire name of this header.
    pub fn name() -> (r: &'static str)
        ensures
            r@ == "hx-reswap"@,
    {
        "hx-reswap"
    }

    /// Decodes from the raw values carried under this header's name.
    pub fn decode(values: &[HeaderValue]) -> (r: Result<Self, InvalidHeader>)
        ensures
            r is Ok <==> spec_decode_reswap(views_of(values@)) is Some,
            r is Ok ==> Some(r->Ok_0.0) == spec_decode_reswap(views_of(values@)),
    {
        if values.len() != 1 {
            return Err(InvalidHeader);
        }
        match Swap::try_from(values[0].as_bytes()) {
            Ok(s) => Ok(HxReswap(s)),
            Err(e) => Err(e),
        }
    }

    /// Appends this header's raw value to an outgoing sequence.
    pub fn encode(&self, out: &mut Vec<HeaderValue>)
        ensures
            appended(old(out)@, final(out)@, encode_utf8(self.0.token_spec())),
    {
        let v = HeaderValue::from(self.0);
        out.push(v);
    }
}

/// The swap-strategy header decodes its own encoding, for every strategy.
pub proof fn lemma_reswap_round_trip(s: Swap)
    ensures
        spec_decode_reswap(seq![encode_utf8(s.token_spec())]) == Some(s),
{
    crate::lemma_swap_round_trip(s);
}

/// The history-modification headers: one payload grammar shared by the push
/// and replace header names, selected by a marker type.
pub trait HistoryModification {
    /// The wire name the marker selects.
    spec fn spec_name() -> Seq<char>;

    /// The wire name the marker selects.
    fn name() -> (r: &'static str)
        ensures
            r@ == Self::spec_name(),
    ;
}

/// Marker for the header that pushes a new url into the history stack.
#[derive(Debug, Clone, Copy, PartialEq, Eq, Structural)]
pub struct HxPushUrl;

impl HistoryModification for HxPushUrl {
    open spec fn spec_name() -> Seq<char> {
        "hx-push-url"@
    }

    fn name() -> (r: &'static str) {
        "hx-push-url"
    }
}

/// Marker for the header that replaces the current url in the history stack.
#[derive(Debug, Clone, Copy, PartialEq, Eq, Structural)]
pub struct HxReplaceUrl;

impl HistoryModification for HxReplaceUrl {
    open spec fn spec_name() -> Seq<char> {
        "hx-replace-url"@
    }

    fn name() -> (r: &'static str) {
        "hx-replace-url"
    }
}

/// The mathematical value of a history modification.
pub enum HistoryModel {
    /// Navigate: the canonical text of the url.
    Uri(Seq<char>),
    /// Do not change the history.
    NoChange,
    /// The never-constructed marker case.
    Phantom,
}

/// The history-modification wire format: exactly one value; the literal
/// `false` means no change, anything else must parse as a URI.
pub open spec fn spec_decode_history(values: Seq<Seq<u8>>) -> Option<HistoryModel> {
    if values.len() != 1 {
        None
    } else if values[0] == encode_utf8("false"@) {
        Some(HistoryModel::NoChange)
    } else {
        match uri_canon(values[0]) {
            Some(t) => Some(HistoryModel::Uri(t)),
            None => None,
        }
    }
}

/// The raw bytes a history modification encodes to.
pub open spec fn spec_encode_history(m: HistoryModel) -> Seq<u8> {
    match m {
        HistoryModel::Uri(t) => encode_utf8(t),
        HistoryModel::NoChange => encode_utf8("false"@),
        HistoryModel::Phantom => Seq::empty(),
    }
}

/// To be used with [`HxPushUrl`] or [`HxReplaceUrl`]: either a url to modify
/// the history with, or the choice not to change the history.
#[derive(Debug, PartialEq, Eq)]
pub enum HxModifyHistory<M: HistoryModification> {
    /// A url to modify the history with.
    Uri(Uri),
    /// Do not change the history.
    NoChange,
    /// Never constructed; binds the marker type that selects the wire name.
    Phantom(core::marker::PhantomData<M>),
}

impl<M: HistoryModification> View for HxModifyHistory<M> {
    type V = HistoryModel;

    open spec fn view(&self) -> HistoryModel {
        match self {
            HxModifyHistory::Uri(u) => HistoryModel::Uri(u@),
            HxModifyHistory::NoChange => HistoryModel::NoChange,
            HxModifyHistory::Phantom(_) => HistoryModel::Phantom,
        }
    }
}

impl<M: HistoryModification> HxModifyHistory<M> {
    /// A held url is well formed.
    pub open spec fn wf(&self) -> bool {
        match self {
            HxModifyHistory::Uri(u) => u.wf(),
            _ => true,
        }
    }

    /// The wire name the marker selects.
    pub fn name() -> (r: &'static str)
        ensures
            r@ == M::spec_name(),
    {
        M::name()
    }

    /// Decodes from the raw values carried under this header's name: an
    /// empty value fails, as does one that is neither the literal `false`
    /// nor a URI, such as one holding a control byte, a space or a delete
    /// before a fragment.
    pub fn decode(values: &[HeaderValue]) -> (r: Result<Self, InvalidHeader>)
        ensures
            r is Ok <==> spec_decode_history(views_of(values@)) is Some,
            r is Ok ==> Some(r->Ok_0@) == spec_decode_history(views_of(values@)) && r->Ok_0.wf(),
            r is Ok ==> values@[0]@.len() > 0 && (forall|i: int|
                0 <= i < fragment_start(values@[0]@) ==> uri_byte_ok(#[trigger] values@[0]@[i])),
    {
        if values.len() != 1 {
            return Err(InvalidHeader);
        }
        if values[0].eq_text("false") {
            proof {
                reveal_strlit("false");
                assert(visible_text("false"@));
                crate::value::lemma_visible_text_bytes("false"@);
                lemma_fragment_start_le(values@[0]@);
                assert forall|i: int|
                    0 <= i < fragment_start(values@[0]@) implies uri_byte_ok(
                    #[trigger] values@[0]@[i],
                ) by {
                    assert(values@[0]@[i] == "false"@[i] as u8);
                }
            }
            return Ok(HxModifyHistory::NoChange);
        }
        match Uri::parse(values[0].as_bytes()) {
            Ok(u) => Ok(HxModifyHistory::Uri(u)),
            Err(e) => Err(e),
        }
    }

    /// Appends this header's raw value to an outgoing sequence. The phantom
    /// case is never constructed and is left out.
    pub fn encode(&self, out: &mut Vec<HeaderValue>)
        requires
            self.wf(),
            !(self is Phantom),
        ensures
            appended(old(out)@, final(out)@, spec_encode_history(self@)),
    {
        match self {
            HxModifyHistory::Uri(u) => encode_uri_header(u, out),
            HxModifyHistory::NoChange => {
                proof {
                    reveal_strlit("false");
                    assert(wire_text("false"@));
                }
                encode_string_header("false", out);
            },
            HxModifyHistory::Phantom(_) => {
                proof {
                    assert(false);
                }
            },
        }
    }
}

/// Decoding the literal `false` yields no history change, and the encoding of
/// no change is exactly that literal.
pub proof fn lemma_history_no_change_round_trip()
    ensures
        spec_decode_history(seq![spec_encode_history(HistoryModel::NoChange)]) == Some(
            HistoryModel::NoChange,
        ),
{
}

/// A well-formed url other than the literal `false` decodes back from its
/// own encoding.
pub proof fn lemma_history_uri_round_trip(u: Uri)
    requires
        u.wf(),
        u@ != "false"@,
    ensures
        spec_decode_history(seq![spec_encode_history(HistoryModel::Uri(u@))]) == Some(
            HistoryModel::Uri(u@),
        ),
{
    lemma_uri_wf(u);
    crate::value::lemma_encode_ne(u@, "false"@);
}

/// A space or horizontal tab: what trimming an event name removes. Decoded
/// trigger text is visible ASCII, where these are the only whitespace.
pub open spec fn is_sp(c: char) -> bool {
    c as int == 32 || c as int == 9
}

/// The number of leading whitespace characters.
pub open spec fn sp_prefix(s: Seq<char>) -> int
    decreases s.len(),
{
    if s.len() > 0 && is_sp(s[0]) {
        1 + sp_prefix(s.drop_first())
    } else {
        0
    }
}

/// The number of trailing whitespace characters.
pub open spec fn sp_suffix(s: Seq<char>) -> int
    decreases s.len(),
{
    if s.len() > 0 && is_sp(s.last()) {
        1 + sp_suffix(s.drop_last())
    } else {
        0
    }
}

/// The text with leading and trailing whitespace removed.
pub open spec fn trim_ws(s: Seq<char>) -> Seq<char> {
    if sp_prefix(s) == s.len() {
        Seq::empty()
    } else {
        s.subrange(sp_prefix(s), s.len() - sp_suffix(s))
    }
}

/// Where the leading whitespace of the text ends.
proof fn lemma_sp_prefix(s: Seq<char>)
    ensures
        0 <= sp_prefix(s) <= s.len(),
        forall|k: int| 0 <= k < sp_prefix(s) ==> is_sp(#[trigger] s[k]),
        sp_prefix(s) < s.len() ==> !is_sp(s[sp_prefix(s)]),
    decreases s.len(),
{
    if s.len() > 0 && is_sp(s[0]) {
        lemma_sp_prefix(s.drop_first());
        assert forall|k: int| 0 <= k < sp_prefix(s) implies is_sp(#[trigger] s[k]) by {
            if k > 0 {
                assert(s.drop_first()[k - 1] == s[k]);
            }
        }
        if sp_prefix(s) < s.len() {
            assert(s.drop_first()[sp_prefix(s) - 1] == s[sp_prefix(s)]);
        }
    }
}

/// Where the trailing whitespace of the text begins.
proof fn lemma_sp_suffix(s: Seq<char>)
    ensures
        0 <= sp_suffix(s) <= s.len(),
        forall|k: int| s.len() - sp_suffix(s) <= k < s.len() ==> is_sp(#[trigger] s[k]),
        sp_suffix(s) < s.len() ==> !is_sp(s[s.len() - sp_suffix(s) - 1]),
    decreases s.len(),
{
    if s.len() > 0 && is_sp(s.last()) {
        lemma_sp_suffix(s.drop_last());
        assert forall|k: int| s.len() - sp_suffix(s) <= k < s.len() implies is_sp(
            #[trigger] s[k],
        ) by {
            if k < s.len() - 1 {
                assert(s.drop_last()[k] == s[k]);
            }
        }
        if sp_suffix(s) < s.len() {
            assert(s.drop_last()[s.len() - sp_suffix(s) - 1] == s[s.len() - sp_suffix(s) - 1]);
        }
    }
}

/// Any cut with only whitespace before it that stops at the end or at a
/// non-whitespace character is where the leading whitespace ends.
proof fn lemma_sp_prefix_unique(s: Seq<char>, a: int)
    requires
        0 <= a <= s.len(),
        forall|k: int| 0 <= k < a ==> is_sp(#[trigger] s[k]),
        a < s.len() ==> !is_sp(s[a]),
    ensures
        a == sp_prefix(s),
{
    lemma_sp_prefix(s);
    if a < sp_prefix(s) {
        assert(is_sp(s[a]));
        assert(a < s.len());
    } else if a > sp_prefix(s) {
        assert(is_sp(s[sp_prefix(s)]));
        assert(sp_prefix(s) < s.len());
    }
}

/// Any cut with only whitespace after it that stops at the start or at a
/// non-whitespace character is where the trailing whitespace begins.
proof fn lemma_sp_suffix_unique(s: Seq<char>, b: int)
    requires
        0 <= b <= s.len(),
        forall|k: int| b <= k < s.len() ==> is_sp(#[trigger] s[k]),
        b > 0 ==> !is_sp(s[b - 1]),
    ensures
        s.len() - b == sp_suffix(s),
{
    lemma_sp_suffix(s);
    let sb = s.len() - sp_suffix(s);
    if b < sb {
        assert(is_sp(s[sb - 1]));
    } else if b > sb {
        assert(is_sp(s[b - 1]));
    }
}

/// The index of the first comma, or the length when there is none.
pub open spec fn first_comma(s: Seq<char>) -> int
    decreases s.len(),
{
    if s.len() == 0 {
        0
    } else if s[0] as int == 44 {
        0
    } else {
        1 + first_comma(s.drop_first())
    }
}

/// What the first comma index means.
proof fn lemma_first_comma(s: Seq<char>)
    ensures
        0 <= first_comma(s) <= s.len(),
        forall|k: int| 0 <= k < first_comma(s) ==> (#[trigger] s[k]) as int != 44,
        first_comma(s) < s.len() ==> s[first_comma(s)] as int == 44,
    decreases s.len(),
{
    if s.len() > 0 && s[0] as int != 44 {
        lemma_first_comma(s.drop_first());
        assert forall|k: int| 0 <= k < first_comma(s) implies (#[trigger] s[k]) as int != 44 by {
            if k > 0 {
                assert(s.drop_first()[k - 1] == s[k]);
            }
        }
        if first_comma(s) < s.len() {
            assert(s.drop_first()[first_comma(s) - 1] == s[first_comma(s)]);
        }
    }
}

/// Any index holding a comma with none before it is the first comma.
proof fn lemma_first_comma_unique(s: Seq<char>, i: int)
    requires
        0 <= i <= s.len(),
        forall|k: int| 0 <= k < i ==> (#[trigger] s[k]) as int != 44,
        i < s.len() ==> s[i] as int == 44,
    ensures
        i == first_comma(s),
{
    lemma_first_comma(s);
    if i < first_comma(s) {
        assert(s[i] as int != 44);
        assert(i < s.len());
    } else if i > first_comma(s) {
        assert(s[first_comma(s)] as int != 44);
        assert(first_comma(s) < s.len());
    }
}

/// The comma-separated pieces of the text, in order. Text without a comma is
/// one piece, so empty text is one empty piece.
pub open spec fn split_commas(s: Seq<char>) -> Seq<Seq<char>>
    decreases s.len(),
    via split_commas_decreases
{
    if first_comma(s) == s.len() {
        seq![s]
    } else {
        seq![s.take(first_comma(s))] + split_commas(s.skip(first_comma(s) + 1))
    }
}

#[via_fn]
proof fn split_commas_decreases(s: Seq<char>) {
    lemma_first_comma(s);
}

/// The pieces of the text split at commas, each trimmed.
pub open spec fn split_trim(s: Seq<char>) -> Seq<Seq<char>> {
    split_commas(s).map_values(|t: Seq<char>| trim_ws(t))
}

/// The event names joined with a comma and a space.
pub open spec fn join_sep(items: Seq<Seq<char>>) -> Seq<char>
    decreases items.len(),
{
    if items.len() == 0 {
        Seq::empty()
    } else if items.len() == 1 {
        items[0]
    } else {
        join_sep(items.drop_last()) + ", "@ + items.last()
    }
}

/// Whether the character at the given index is a space or horizontal tab.
fn sp_at(s: &str, i: usize) -> (r: bool)
    requires
        visible_text(s@),
        vstd::utf8::is_ascii_chars(s@),
        i < s@.len(),
    ensures
        r == is_sp(s@[i as int]),
{
    let c = s.get_ascii(i);
    proof {
        assert(s@[i as int] as u8 == c && s@[i as int] as int == c as int) by {
            assert(visible_char(s@[i as int]));
        }
    }
    c == 32 || c == 9
}

/// Trims leading and trailing whitespace from visible ASCII text.
fn trim_str(s: &str) -> (r: String)
    requires
        visible_text(s@),
    ensures
        r@ == trim_ws(s@),
        visible_text(r@),
{
    proof {
        crate::value::lemma_visible_text_bytes(s@);
        assert(s.is_ascii());
    }
    let n = s.unicode_len();
    let mut a: usize = 0;
    while a < n && sp_at(s, a)
        invariant
            visible_text(s@),
            vstd::utf8::is_ascii_chars(s@),
            n == s@.len(),
            0 <= a <= n,
            forall|k: int| 0 <= k < a ==> is_sp(#[trigger] s@[k]),
        decreases n - a,
    {
        a += 1;
    }
    proof {
        lemma_sp_prefix_unique(s@, a as int);
    }
    if a == n {
        proof {
            reveal_strlit("");
        }
        let r = String::new();
        proof {
            assert(r@ =~= trim_ws(s@));
        }
        return r;
    }
    let mut b: usize = n;
    while b > a && sp_at(s, b - 1)
        invariant
            visible_text(s@),
            vstd::utf8::is_ascii_chars(s@),
            n == s@.len(),
            a < n,
            !is_sp(s@[a as int]),
            a <= b <= n,
            forall|k: int| b <= k < n ==> is_sp(#[trigger] s@[k]),
        decreases b,
    {
        b -= 1;
    }
    proof {
        assert(b > a);
        lemma_sp_suffix_unique(s@, b as int);
        lemma_sp_prefix(s@);
        assert(sp_prefix(s@) < s@.len());
    }
    let piece = s.substring_ascii(a, b);
    let r = piece.to_owned();
    proof {
        assert(r@ =~= trim_ws(s@));
    }
    r
}

/// Splits visible ASCII text at commas and trims each piece.
fn split_trim_str(s: &str) -> (items: Vec<String>)
    requires
        visible_text(s@),
    ensures
        items@.map_values(|x: String| x@) == split_trim(s@),
        forall|i: int| 0 <= i < items@.len() ==> visible_text((#[trigger] items@[i])@),
{
    proof {
        crate::value::lemma_visible_text_bytes(s@);
        assert(s.is_ascii());
    }
    let n = s.unicode_len();
    let mut items: Vec<String> = Vec::new();
    let mut start: usize = 0;
    let mut j: usize = 0;
    proof {
        assert(s@.skip(0) =~= s@);
        assert(items@.map_values(|x: String| x@) =~= Seq::<Seq<char>>::empty());
        assert(split_trim(s@) =~= items@.map_values(|x: String| x@) + split_trim(s@.skip(0)));
    }
    while j < n
        invariant
            visible_text(s@),
            vstd::utf8::is_ascii_chars(s@),
            n == s@.len(),
            0 <= start <= j <= n,
            forall|k: int| start <= k < j ==> (#[trigger] s@[k]) as int != 44,
            split_trim(s@) =~= items@.map_values(|x: String| x@) + split_trim(s@.skip(
                start as int,
            )),
            forall|i: int| 0 <= i < items@.len() ==> visible_text((#[trigger] items@[i])@),
        decreases n - j,
    {
        let c = s.get_ascii(j);
        proof {
            assert(s@[j as int] as u8 == c && s@[j as int] as int == c as int) by {
                assert(visible_char(s@[j as int]));
            }
        }
        if c == 44 {
            let piece = s.substring_ascii(start, j);
            let t = trim_str(piece);
            proof {
                let rest = s@.skip(start as int);
                assert(forall|k: int|
                    0 <= k < rest.len() ==> #[trigger] rest[k] == s@[k + start]);
                lemma_first_comma_unique(rest, j - start);
                assert(rest.take(j - start) =~= s@.subrange(start as int, j as int));
                assert(rest.skip(j - start + 1) =~= s@.skip(j + 1));
                assert(split_commas(rest) == seq![s@.subrange(start as int, j as int)]
                    + split_commas(s@.skip(j + 1)));
                let f = |t2: Seq<char>| trim_ws(t2);
                assert(split_trim(rest) =~= seq![trim_ws(s@.subrange(start as int, j as int))]
                    + split_trim(s@.skip(j + 1))) by {
                    assert(split_trim(rest) == split_commas(rest).map_values(f));
                    assert(split_commas(rest)[0] == s@.subrange(start as int, j as int));
                    assert(forall|i: int|
                        0 <= i < split_commas(s@.skip(j + 1)).len()
                            ==> #[trigger] split_commas(rest).map_values(f)[i + 1] == split_commas(
                            s@.skip(j + 1),
                        ).map_values(f)[i]);
                }
                let old_items = items@.map_values(|x: String| x@);
                assert((items@ + seq![t]).map_values(|x: String| x@) =~= old_items + seq![t@]);
            }
            items.push(t);
            start = j + 1;
        }
        j += 1;
    }
    let piece = s.substring_ascii(start, n);
    let t = trim_str(piece);
    proof {
        let rest = s@.skip(start as int);
        assert(forall|k: int| 0 <= k < rest.len() ==> #[trigger] rest[k] == s@[k + start]);
        lemma_first_comma_unique(rest, rest.len() as int);
        assert(split_commas(rest) == seq![rest]);
        assert(rest =~= s@.subrange(start as int, n as int));
        let old_items = items@.map_values(|x: String| x@);
        assert(split_trim(rest) =~= seq![trim_ws(rest)]);
        assert((items@ + seq![t]).map_values(|x: String| x@) =~= old_items + seq![t@]);
    }
    items.push(t);
    proof {
        assert(items@.map_values(|x: String| x@) =~= split_trim(s@));
    }
    items
}

/// Joins event names with a comma and a space.
fn join_items(items: &Vec<String>) -> (r: String)
    ensures
        r@ == join_sep(items@.map_values(|x: String| x@)),
{
    let ghost target = items@.map_values(|x: String| x@);
    let mut out = String::new();
    let n = items.len();
    let mut i: usize = 0;
    proof {
        assert(target.take(0) =~= Seq::empty());
        assert(out@ =~= join_sep(target.take(0)));
    }
    while i < n
        invariant
            n == items@.len(),
            target == items@.map_values(|x: String| x@),
            0 <= i <= n,
            out@ == join_sep(target.take(i as int)),
        decreases n - i,
    {
        if i > 0 {
            out.append(", ");
        }
        out.append(items[i].as_str());
        proof {
            let p = target.take(i + 1);
            assert(p.len() == i + 1);
            if i == 0 {
                assert(p[0] == target[0]);
                assert(join_sep(p) == target[0]);
            } else {
                assert(p.drop_last() =~= target.take(i as int));
                assert(p.last() == target[i as int]);
            }
            assert(target[i as int] == items@[i as int]@);
        }
        i += 1;
    }
    proof {
        assert(target.take(n as int) =~= target);
    }
    out
}


/// The trigger headers: one payload grammar shared by three wire names,
/// selected by a marker type.
pub trait TriggerAfter {
    /// The wire name the marker selects.
    spec fn spec_name() -> Seq<char>;

    /// The wire name the marker selects.
    fn name() -> (r: &'static str)
        ensures
            r@ == Self::spec_name(),
    ;
}

impl TriggerAfter for () {
    open spec fn spec_name() -> Seq<char> {
        "hx-trigger"@
    }

    fn name() -> (r: &'static str) {
        "hx-trigger"
    }
}

/// Marker for the header that triggers events after the settle step.
#[derive(Debug, Clone, Copy, PartialEq, Eq, Structural)]
pub struct AfterSettle;

impl TriggerAfter for AfterSettle {
    open spec fn spec_name() -> Seq<char> {
        "hx-trigger-after-settle"@
    }

    fn name() -> (r: &'static str) {
        "hx-trigger-after-settle"
    }
}

/// Marker for the header that triggers events after the swap step.
#[derive(Debug, Clone, Copy, PartialEq, Eq, Structural)]
pub struct AfterSwap;

impl TriggerAfter for AfterSwap {
    open spec fn spec_name() -> Seq<char> {
        "hx-trigger-after-swap"@
    }

    fn name() -> (r: &'static str) {
        "hx-trigger-after-swap"
    }
}

/// The mathematical value of a trigger header.
pub enum TriggerModel {
    /// An ordered list of event names.
    List(Seq<Seq<char>>),
    /// Event names mapped to detail payloads, each payload the canonical text
    /// of a JSON value, sorted by name.
    Details(Seq<(Seq<char>, Seq<char>)>),
    /// The never-constructed marker case.
    Phantom,
}

/// The trigger wire format: exactly one value; a value parsing as a JSON
/// object yields the detail mapping; otherwise a value readable as text
/// yields the comma-separated, trimmed list of event names.
pub open spec fn spec_decode_trigger(values: Seq<Seq<u8>>) -> Option<TriggerModel> {
    if values.len() != 1 {
        None
    } else if json_obj_entries(values[0]) is Some {
        Some(TriggerModel::Details(json_obj_entries(values[0])->Some_0))
    } else if crate::value::visible_bytes(values[0]) {
        Some(TriggerModel::List(split_trim(vstd::utf8::decode_utf8(values[0]))))
    } else {
        None
    }
}

/// The raw bytes a trigger header encodes to: the list joined with a comma
/// and a space, or the canonical JSON object of the detail mapping.
pub open spec fn spec_encode_trigger(m: TriggerModel) -> Seq<u8> {
    match m {
        TriggerModel::List(items) => encode_utf8(join_sep(items)),
        TriggerModel::Details(es) => encode_utf8(obj_text(es)),
        TriggerModel::Phantom => Seq::empty(),
    }
}

/// A well-formed detail mapping: a well-formed JSON object entry list whose
/// canonical framing parses back to the same entries.
pub closed spec fn details_wf(es: Seq<(Seq<char>, Seq<char>)>) -> bool {
    obj_wf(es) && json_obj_entries(encode_utf8(obj_text(es))) == Some(es)
}

/// A detail mapping that both parses back and renders onto the wire: every
/// quoted key and every value text can be carried in a header value.
pub closed spec fn details_renderable(es: Seq<(Seq<char>, Seq<char>)>) -> bool {
    details_wf(es) && (forall|i: int|
        0 <= i < es.len() ==> wire_text(json_string_text((#[trigger] es[i]).0)) && wire_text(
            es[i].1,
        ))
}

/// Text without a comma.
pub open spec fn no_comma(t: Seq<char>) -> bool {
    forall|k: int| 0 <= k < t.len() ==> (#[trigger] t[k]) as int != 44
}

/// An event name that survives the wire: visible ASCII, already trimmed, and
/// free of commas.
pub open spec fn plain_event(t: Seq<char>) -> bool {
    visible_text(t) && trim_ws(t) == t && no_comma(t)
}

/// The joined list does not parse as a JSON object, so decoding falls back to
/// the list format.
pub closed spec fn joined_not_object(items: Seq<Seq<char>>) -> bool {
    json_obj_entries(encode_utf8(join_sep(items))) is None
}

/// Joins the event names and reports whether the joined value reads back as
/// a list: true exactly when the join does not parse as a JSON object, so a
/// caller can discharge the hypothesis of the list round-trip law.
pub fn joined_reads_as_list(items: &Vec<String>) -> (r: bool)
    ensures
        r == joined_not_object(items@.map_values(|x: String| x@)),
{
    let s = join_items(items);
    let parsed = parse_object(s.as_str().as_bytes());
    parsed.is_none()
}

/// Allows you to trigger client-side events: an ordered list of event names,
/// or a mapping from event name to a detail payload held as the canonical
/// text of a JSON value.
#[derive(Debug, PartialEq, Eq)]
pub enum HxTrigger<After: TriggerAfter = ()> {
    /// A list of events to trigger.
    List(Vec<String>),
    /// Events to trigger with details: each entry an event name and the
    /// canonical text of its JSON detail payload.
    WithDetails(Vec<(String, String)>),
    /// Never constructed; binds the marker type that selects the wire name.
    Phantom(core::marker::PhantomData<After>),
}

impl<After: TriggerAfter> View for HxTrigger<After> {
    type V = TriggerModel;

    open spec fn view(&self) -> TriggerModel {
        match self {
            HxTrigger::List(items) => TriggerModel::List(
                items@.map_values(|x: String| x@),
            ),
            HxTrigger::WithDetails(d) => TriggerModel::Details(entries_view(d@)),
            HxTrigger::Phantom(_) => TriggerModel::Phantom,
        }
    }
}

impl<After: TriggerAfter> HxTrigger<After> {
    /// List items are visible ASCII; detail mappings are well-formed entry
    /// lists.
    pub closed spec fn wf(&self) -> bool {
        match self {
            HxTrigger::List(items) => forall|i: int|
                0 <= i < items@.len() ==> visible_text((#[trigger] items@[i])@),
            HxTrigger::WithDetails(d) => obj_wf(entries_view(d@)),
            HxTrigger::Phantom(_) => true,
        }
    }

    /// Every piece of the encoded value can be carried on the wire.
    pub closed spec fn renderable(&self) -> bool {
        match self {
            HxTrigger::List(items) => forall|i: int|
                0 <= i < items@.len() ==> wire_text((#[trigger] items@[i])@),
            HxTrigger::WithDetails(d) => forall|i: int|
                0 <= i < d@.len() ==> wire_text(json_string_text(((#[trigger] d@[i]).0)@))
                    && wire_text((d@[i].1)@),
            HxTrigger::Phantom(_) => false,
        }
    }

    /// The wire name the marker selects.
    pub fn name() -> (r: &'static str)
        ensures
            r@ == After::spec_name(),
    {
        After::name()
    }

    /// Decodes from the raw values carried under this header's name: a JSON
    /// object yields the detail mapping, any other readable text the
    /// comma-separated, trimmed list of event names.
    pub fn decode(values: &[HeaderValue]) -> (r: Result<Self, InvalidHeader>)
        ensures
            r is Ok <==> spec_decode_trigger(views_of(values@)) is Some,
            r is Ok ==> Some(r->Ok_0@) == spec_decode_trigger(views_of(values@)) && r->Ok_0.wf(),
            r is Ok && r->Ok_0 is List ==> r->Ok_0.renderable(),
    {
        if values.len() != 1 {
            return Err(InvalidHeader);
        }
        match parse_object(values[0].as_bytes()) {
            Some(entries) => {
                proof {
                    assert(obj_wf(entries_view(entries@)));
                }
                Ok(HxTrigger::WithDetails(entries))
            },
            None => {
                match values[0].to_text() {
                    Some(s) => {
                        let items = split_trim_str(s.as_str());
                        proof {
                            assert forall|i: int| 0 <= i < items@.len() implies wire_text(
                                (#[trigger] items@[i])@,
                            ) by {
                                assert(visible_text(items@[i]@));
                                assert forall|k: int|
                                    0 <= k < items@[i]@.len() implies crate::value::wire_char(
                                    #[trigger] items@[i]@[k],
                                ) by {
                                    assert(visible_char(items@[i]@[k]));
                                }
                            }
                        }
                        Ok(HxTrigger::List(items))
                    },
                    None => Err(InvalidHeader),
                }
            },
        }
    }

    /// Appends this header's raw value to an outgoing sequence. The phantom
    /// case is never constructed and is left out.
    pub fn encode(&self, out: &mut Vec<HeaderValue>)
        requires
            self.wf(),
            self.renderable(),
            !(self is Phantom),
        ensures
            appended(old(out)@, final(out)@, spec_encode_trigger(self@)),
    {
        match self {
            HxTrigger::List(items) => {
                let s = join_items(items);
                proof {
                    lemma_join_wire(items@.map_values(|x: String| x@));
                    crate::value::lemma_wire_text_bytes(s@);
                }
                match HeaderValue::from_text(s.as_str()) {
                    Ok(v) => out.push(v),
                    Err(_) => {
                        proof {
                            assert(false);
                        }
                        vstd::pervasive::unreached()
                    },
                }
            },
            HxTrigger::WithDetails(d) => {
                let text = build_object_text(d);
                proof {
                    let es = entries_view(d@);
                    assert forall|i: int|
                        0 <= i < es.len() implies wire_text(json_string_text(
                        (#[trigger] es[i]).0,
                    )) && wire_text(es[i].1) by {
                        assert(es[i] == (d@[i].0@, d@[i].1@));
                    }
                    crate::json::lemma_obj_text_wire(es);
                    crate::value::lemma_wire_text_bytes(text@);
                }
                match HeaderValue::from_text(text.as_str()) {
                    Ok(v) => out.push(v),
                    Err(_) => {
                        proof {
                            assert(false);
                        }
                        vstd::pervasive::unreached()
                    },
                }
            },
            HxTrigger::Phantom(_) => {
                proof {
                    assert(false);
                }
            },
        }
    }

    /// Builds a well-formed detail mapping from event names and JSON value
    /// texts. It succeeds when the keys are strictly ascending, every text
    /// denotes a JSON value (held in canonical form), every rendered piece
    /// can be carried as a header value, and the framed object parses back
    /// (which serde_json refuses only beyond its nesting depth).
    pub fn with_details(entries: Vec<(String, String)>) -> (r: Option<Self>)
        ensures
            r is Some ==> r->Some_0.wf() && r->Some_0.renderable() && r->Some_0@
                == TriggerModel::Details(canon_entries(entries_view(entries@))) && details_wf(
                canon_entries(entries_view(entries@)),
            ),
            r is Some ==> (forall|i: int|
                0 <= i < entries@.len() ==> json_value_canon(
                    ((#[trigger] entries@[i]).1)@,
                ) is Some) && (forall|i: int|
                1 <= i < entries@.len() ==> key_lt(
                    (entries@[i - 1].0)@,
                    ((#[trigger] entries@[i]).0)@,
                )),
            (forall|i: int|
                0 <= i < entries@.len() ==> json_value_canon(
                    ((#[trigger] entries@[i]).1)@,
                ) is Some) && details_renderable(canon_entries(entries_view(entries@))) ==> r
                is Some,
    {
        let ghost ce = canon_entries(entries_view(entries@));
        let n = entries.len();
        let mut i: usize = 1;
        while i < n
            invariant
                ce == canon_entries(entries_view(entries@)),
                n == entries@.len(),
                1 <= i,
                i <= n || i == 1,
                forall|k: int|
                    1 <= k < i ==> key_lt((entries@[k - 1].0)@, ((#[trigger] entries@[k]).0)@),
            decreases n - i,
        {
            if !bytes_lt_exec(
                entries[i - 1].0.as_str().as_bytes(),
                entries[i].0.as_str().as_bytes(),
            ) {
                proof {
                    assert(ce[i - 1].0 == (entries@[i - 1].0)@);
                    assert(ce[i as int].0 == (entries@[i as int].0)@);
                    assert(!obj_wf(ce));
                }
                return None;
            }
            i += 1;
        }
        let mut canon: Vec<(String, String)> = Vec::new();
        let mut j: usize = 0;
        while j < n
            invariant
                ce == canon_entries(entries_view(entries@)),
                n == entries@.len(),
                0 <= j <= n,
                canon@.len() == j,
                forall|k: int|
                    0 <= k < j ==> ((#[trigger] canon@[k]).0)@ == (entries@[k].0)@ && Some(
                        (canon@[k].1)@,
                    ) == json_value_canon((entries@[k].1)@),
                forall|k: int|
                    0 <= k < j ==> crate::value::scalar_chars(((#[trigger] canon@[k]).0)@)
                        && text_chars_ok((canon@[k].1)@) && json_value_canon((canon@[k].1)@)
                        == Some((canon@[k].1)@),
                forall|k: int|
                    0 <= k < j ==> wire_text(json_string_text(((#[trigger] canon@[k]).0)@))
                        && wire_text((canon@[k].1)@),
            decreases n - j,
        {
            proof {
                assert(ce[j as int] == (
                    (entries@[j as int].0)@,
                    json_value_canon((entries@[j as int].1)@)->Some_0,
                ));
            }
            let sc = check_scalar_chars(entries[j].0.as_str());
            if !sc {
                proof {
                    assert(false);
                }
                return None;
            }
            let quoted_key = crate::json::quote_string(entries[j].0.as_str());
            if !crate::value::check_wire_text(quoted_key.as_str()) {
                proof {
                    assert(!wire_text(json_string_text(ce[j as int].0)));
                    assert(!details_renderable(ce));
                }
                return None;
            }
            match canon_value_text(entries[j].1.as_str()) {
                Some(t) => {
                    if !crate::value::check_wire_text(t.as_str()) {
                        proof {
                            assert(t@ == ce[j as int].1);
                            assert(!details_renderable(ce));
                        }
                        return None;
                    }
                    let key = entries[j].0.clone();
                    canon.push((key, t));
                },
                None => {
                    return None;
                },
            }
            j += 1;
        }
        proof {
            let es = entries_view(canon@);
            assert forall|a: int, b: int| 0 <= a < b < es.len() implies key_lt(
                #[trigger] es[a].0,
                #[trigger] es[b].0,
            ) by {
                assert forall|k: int| 1 <= k < es.len() implies key_lt(
                    (#[trigger] es[k - 1]).0,
                    es[k].0,
                ) by {
                    assert(es[k].0 == (canon@[k].0)@ && es[k - 1].0 == (canon@[k - 1].0)@);
                    assert(key_lt((entries@[k - 1].0)@, (entries@[k].0)@));
                }
                lemma_sorted_pairs(es, a, b);
            }
            assert forall|k: int| 0 <= k < es.len() implies crate::value::scalar_chars(
                (#[trigger] es[k]).0,
            ) && text_chars_ok(es[k].1) && json_value_canon(es[k].1) == Some(es[k].1) by {
                assert(es[k] == ((canon@[k].0)@, (canon@[k].1)@));
            }
            assert(obj_wf(es));
            assert(entries_view(canon@) =~= ce);
        }
        let text = build_object_text(&canon);
        match parse_object(text.as_str().as_bytes()) {
            Some(_) => {
                proof {
                    assert(details_wf(entries_view(canon@)));
                    assert forall|k: int| 0 <= k < entries@.len() implies json_value_canon(
                        ((#[trigger] entries@[k]).1)@,
                    ) is Some by {
                        assert(Some((canon@[k].1)@) == json_value_canon((entries@[k].1)@));
                    }
                    assert forall|k: int| 0 <= k < entries_view(canon@).len() implies wire_text(
                        json_string_text((#[trigger] entries_view(canon@)[k]).0),
                    ) && wire_text(entries_view(canon@)[k].1) by {
                        assert(entries_view(canon@)[k] == ((canon@[k].0)@, (canon@[k].1)@));
                    }
                }
                Some(HxTrigger::WithDetails(canon))
            },
            None => {
                proof {
                    assert(!details_wf(ce));
                }
                None
            },
        }
    }
}

/// The entry list with every value text in canonical form.
pub open spec fn canon_entries(es: Seq<(Seq<char>, Seq<char>)>) -> Seq<(Seq<char>, Seq<char>)> {
    es.map_values(|e: (Seq<char>, Seq<char>)| (e.0, json_value_canon(e.1)->Some_0))
}

/// Concatenation preserves visible text.
proof fn lemma_visible_concat(a: Seq<char>, b: Seq<char>)
    requires
        visible_text(a),
        visible_text(b),
    ensures
        visible_text(a + b),
{
    assert forall|i: int| 0 <= i < (a + b).len() implies visible_char(#[trigger] (a + b)[i]) by {
        if i < a.len() {
            assert((a + b)[i] == a[i]);
        } else {
            assert((a + b)[i] == b[i - a.len()]);
        }
    }
}

/// The join of wire-safe items is wire safe.
proof fn lemma_join_wire(items: Seq<Seq<char>>)
    requires
        forall|i: int| 0 <= i < items.len() ==> wire_text(#[trigger] items[i]),
    ensures
        wire_text(join_sep(items)),
    decreases items.len(),
{
    reveal_strlit(", ");
    assert(wire_text(", "@));
    if items.len() <= 1 {
    } else {
        assert(forall|i: int|
            0 <= i < items.drop_last().len() ==> #[trigger] items.drop_last()[i] == items[i]);
        lemma_join_wire(items.drop_last());
        crate::json::lemma_wire_text_concat(join_sep(items.drop_last()), ", "@);
        crate::json::lemma_wire_text_concat(join_sep(items.drop_last()) + ", "@, items.last());
    }
}

/// The join of visible items is visible.
proof fn lemma_join_visible(items: Seq<Seq<char>>)
    requires
        forall|i: int| 0 <= i < items.len() ==> visible_text(#[trigger] items[i]),
    ensures
        visible_text(join_sep(items)),
    decreases items.len(),
{
    reveal_strlit(", ");
    assert(visible_text(", "@));
    if items.len() <= 1 {
    } else {
        assert(forall|i: int|
            0 <= i < items.drop_last().len() ==> #[trigger] items.drop_last()[i] == items[i]);
        lemma_join_visible(items.drop_last());
        lemma_visible_concat(join_sep(items.drop_last()), ", "@);
        lemma_visible_concat(join_sep(items.drop_last()) + ", "@, items.last());
    }
}

/// Joining reads from the front as the first item, the separator, and the
/// join of the rest.
proof fn lemma_join_front(items: Seq<Seq<char>>)
    requires
        items.len() >= 2,
    ensures
        join_sep(items) == items[0] + ", "@ + join_sep(items.drop_first()),
    decreases items.len(),
{
    if items.len() == 2 {
        assert(items.drop_last() =~= seq![items[0]]);
        assert(items.drop_first() =~= seq![items[1]]);
        assert(join_sep(items.drop_last()) == items[0]);
        assert(join_sep(items.drop_first()) == items[1]);
        assert(items.last() == items[1]);
    } else {
        let dl = items.drop_last();
        lemma_join_front(dl);
        let df = items.drop_first();
        assert(df.drop_last() =~= dl.drop_first());
        assert(df.last() == items.last());
        assert(join_sep(df) == join_sep(df.drop_last()) + ", "@ + df.last());
        assert(join_sep(items) == join_sep(dl) + ", "@ + items.last());
        assert(join_sep(dl) == dl[0] + ", "@ + join_sep(dl.drop_first()));
        assert(dl[0] == items[0]);
        assert(join_sep(items) =~= items[0] + ", "@ + join_sep(df));
    }
}

/// Trimming removes a whitespace prefix in front of trimmed text.
proof fn lemma_trim_of_extended(pre: Seq<char>, x: Seq<char>)
    requires
        forall|k: int| 0 <= k < pre.len() ==> is_sp(#[trigger] pre[k]),
        trim_ws(x) == x,
    ensures
        trim_ws(pre + x) == x,
{
    let y = pre + x;
    if x.len() == 0 {
        assert(forall|k: int| 0 <= k < y.len() ==> is_sp(#[trigger] y[k]));
        lemma_sp_prefix_unique(y, y.len() as int);
        assert(trim_ws(y) =~= x);
    } else {
        lemma_sp_prefix(x);
        lemma_sp_suffix(x);
        if sp_prefix(x) == x.len() {
            assert(trim_ws(x).len() == 0);
            assert(false);
        }
        assert(trim_ws(x).len() == x.len() - sp_prefix(x) - sp_suffix(x));
        assert(sp_prefix(x) == 0 && sp_suffix(x) == 0);
        assert(!is_sp(x[0]));
        assert(!is_sp(x[x.len() - 1]));
        assert forall|k: int| 0 <= k < pre.len() implies is_sp(#[trigger] y[k]) by {
            assert(y[k] == pre[k]);
        }
        assert(y[pre.len() as int] == x[0]);
        lemma_sp_prefix_unique(y, pre.len() as int);
        assert(y[y.len() - 1] == x[x.len() - 1]);
        lemma_sp_suffix_unique(y, y.len() as int);
        assert(trim_ws(y) =~= x);
    }
}

/// Splitting and trimming the join of plain events, behind any whitespace
/// prefix, yields the events back.
proof fn lemma_split_join_rec(pre: Seq<char>, items: Seq<Seq<char>>)
    requires
        forall|k: int| 0 <= k < pre.len() ==> is_sp(#[trigger] pre[k]),
        items.len() > 0,
        forall|i: int| 0 <= i < items.len() ==> trim_ws(#[trigger] items[i]) == items[i],
        forall|i: int| 0 <= i < items.len() ==> no_comma(#[trigger] items[i]),
    ensures
        split_trim(pre + join_sep(items)) == items,
    decreases items.len(),
{
    let y = pre + join_sep(items);
    if items.len() == 1 {
        assert(join_sep(items) == items[0]);
        assert forall|k: int| 0 <= k < y.len() implies (#[trigger] y[k]) as int != 44 by {
            if k < pre.len() {
                assert(y[k] == pre[k] && is_sp(pre[k]));
            } else {
                assert(y[k] == items[0][k - pre.len()]);
                assert(no_comma(items[0]));
            }
        }
        lemma_first_comma_unique(y, y.len() as int);
        assert(split_commas(y) == seq![y]);
        lemma_trim_of_extended(pre, items[0]);
        assert(split_trim(y) =~= seq![items[0]]);
        assert(seq![items[0]] =~= items);
    } else {
        lemma_join_front(items);
        reveal_strlit(", ");
        assert(", "@.len() == 2 && ", "@[0] as int == 44 && is_sp(", "@[1]));
        let head = items[0];
        let rest = join_sep(items.drop_first());
        let cut: int = (pre.len() + head.len()) as int;
        assert(y =~= pre + head + ", "@ + rest);
        assert forall|k: int| 0 <= k < cut implies (#[trigger] y[k]) as int != 44 by {
            if k < pre.len() {
                assert(y[k] == pre[k] && is_sp(pre[k]));
            } else {
                assert(y[k] == head[k - pre.len()]);
                assert(no_comma(head));
            }
        }
        assert(y[cut] == ", "@[0]);
        lemma_first_comma_unique(y, cut);
        assert(y.take(cut) =~= pre + head);
        assert(y.skip(cut + 1) =~= seq![", "@[1]] + rest);
        assert(split_commas(y) == seq![y.take(cut)] + split_commas(y.skip(cut + 1)));
        assert(forall|i: int|
            0 <= i < items.drop_first().len() ==> #[trigger] items.drop_first()[i] == items[i
            + 1]);
        lemma_split_join_rec(seq![", "@[1]], items.drop_first());
        lemma_trim_of_extended(pre, head);
        assert(split_trim(y.skip(cut + 1)) == items.drop_first());
        assert forall|i: int| 0 <= i < split_trim(y).len() implies #[trigger] split_trim(y)[i]
            == (seq![head] + items.drop_first())[i] by {
            if i == 0 {
                assert(split_commas(y)[0] == y.take(cut));
            } else {
                assert(split_commas(y)[i] == split_commas(y.skip(cut + 1))[i - 1]);
            }
        }
        assert(split_trim(y) =~= seq![head] + items.drop_first());
        assert(seq![head] + items.drop_first() =~= items);
    }
}

/// The trigger list format decodes its own encoding: splitting the joined
/// event names at commas and trimming them yields the same names, for any
/// non-empty list of plain event names whose join does not read as JSON.
pub proof fn lemma_trigger_list_round_trip(items: Seq<Seq<char>>)
    requires
        items.len() > 0,
        forall|i: int| 0 <= i < items.len() ==> plain_event(#[trigger] items[i]),
        joined_not_object(items),
    ensures
        spec_decode_trigger(seq![spec_encode_trigger(TriggerModel::List(items))]) == Some(
            TriggerModel::List(items),
        ),
{
    lemma_join_visible(items);
    crate::value::lemma_visible_text_round(join_sep(items));
    assert(Seq::<char>::empty() + join_sep(items) =~= join_sep(items));
    lemma_split_join_rec(Seq::empty(), items);
}

/// The trigger detail format decodes its own encoding: the canonical JSON
/// object of a well-formed detail mapping parses back to the same mapping.
pub proof fn lemma_trigger_details_round_trip(es: Seq<(Seq<char>, Seq<char>)>)
    requires
        details_wf(es),
    ensures
        spec_decode_trigger(seq![spec_encode_trigger(TriggerModel::Details(es))]) == Some(
            TriggerModel::Details(es),
        ),
{
}
} // verus!
