//! The structured location header: a client-side redirect carrying a
//! required navigation target and an optional ajax context, embedded as one
//! JSON object. Encoding emits the bare URI text when no context is present,
//! and otherwise the canonical JSON object holding the path and exactly the
//! present context fields.

use vstd::prelude::*;
use vstd::utf8::encode_utf8;

use crate::error::InvalidHeader;
use crate::headers::appended;
use crate::json::{
    build_object_text, bytes_lt_exec, entries_view, json_obj_entries, json_string_text,
    json_string_val, json_value_canon, lemma_sorted_pairs, obj_text, obj_wf, parse_object,
    quote_string, text_chars_ok, unquote_string,
};
use crate::uri::{lemma_uri_wf, uri_canon, Uri};
use crate::value::{
    check_scalar_chars, views_of, wf_value_bytes, HeaderValue,
};

verus! {

/// Ajax context for use with [`HxLocation`]: all fields optional; absent
/// fields are left out of the JSON object entirely. The `values` and
/// `headers` maps are held as key/value pairs in strictly ascending key
/// order.
#[derive(Debug, Clone, PartialEq, Eq, Default)]
pub struct AjaxContext {
    /// The source element of the request.
    pub source: Option<String>,
    /// An event that "triggered" the request.
    pub event: Option<String>,
    /// A callback that will handle the response HTML.
    pub handler: Option<String>,
    /// The target to swap the response into.
    pub target: Option<String>,
    /// How the response will be swapped in relative to the target.
    pub swap: Option<String>,
    /// Values to submit with the request.
    pub values: Option<Vec<(String, String)>>,
    /// Headers to submit with the request.
    pub headers: Option<Vec<(String, String)>>,
    /// Selects the content to swap from the response.
    pub select: Option<String>,
}

/// The mathematical value of an ajax context.
#[verifier::ext_equal]
pub struct AjaxContextModel {
    /// The source element of the request.
    pub source: Option<Seq<char>>,
    /// An event that "triggered" the request.
    pub event: Option<Seq<char>>,
    /// A callback that will handle the response HTML.
    pub handler: Option<Seq<char>>,
    /// The target to swap the response into.
    pub target: Option<Seq<char>>,
    /// How the response will be swapped in relative to the target.
    pub swap: Option<Seq<char>>,
    /// Values to submit with the request.
    pub values: Option<Seq<(Seq<char>, Seq<char>)>>,
    /// Headers to submit with the request.
    pub headers: Option<Seq<(Seq<char>, Seq<char>)>>,
    /// Selects the content to swap from the response.
    pub select: Option<Seq<char>>,
}

/// The view of an optional string.
pub open spec fn opt_view(o: Option<String>) -> Option<Seq<char>> {
    match o {
        Some(s) => Some(s@),
        None => None,
    }
}

/// The view of an optional key/value list.
pub open spec fn opt_entries(o: Option<Vec<(String, String)>>) -> Option<
    Seq<(Seq<char>, Seq<char>)>,
> {
    match o {
        Some(v) => Some(entries_view(v@)),
        None => None,
    }
}

impl View for AjaxContext {
    type V = AjaxContextModel;

    open spec fn view(&self) -> AjaxContextModel {
        AjaxContextModel {
            source: opt_view(self.source),
            event: opt_view(self.event),
            handler: opt_view(self.handler),
            target: opt_view(self.target),
            swap: opt_view(self.swap),
            values: opt_entries(self.values),
            headers: opt_entries(self.headers),
            select: opt_view(self.select),
        }
    }
}

/// The mathematical value of a location header.
#[verifier::ext_equal]
pub struct LocationModel {
    /// The canonical text of the navigation target.
    pub path: Seq<char>,
    /// The optional context.
    pub context: Option<AjaxContextModel>,
}

/// The object entry of an optional string field: absent fields contribute no
/// entry, present fields one entry with the string's JSON literal.
pub open spec fn string_entry(k: Seq<char>, v: Option<Seq<char>>) -> Seq<(Seq<char>, Seq<char>)> {
    match v {
        Some(s) => seq![(k, json_string_text(s))],
        None => Seq::empty(),
    }
}

/// A string map rendered as object entries: each value quoted.
pub open spec fn string_map_entries(m: Seq<(Seq<char>, Seq<char>)>) -> Seq<
    (Seq<char>, Seq<char>),
> {
    m.map_values(|e: (Seq<char>, Seq<char>)| (e.0, json_string_text(e.1)))
}

/// The object entry of an optional string map field.
pub open spec fn map_entry(
    k: Seq<char>,
    v: Option<Seq<(Seq<char>, Seq<char>)>>,
) -> Seq<(Seq<char>, Seq<char>)> {
    match v {
        Some(m) => seq![(k, obj_text(string_map_entries(m)))],
        None => Seq::empty(),
    }
}

/// The entries of the location object: the path and the present context
/// fields, in ascending key order.
pub open spec fn location_entries(path: Seq<char>, c: AjaxContextModel) -> Seq<
    (Seq<char>, Seq<char>),
> {
    string_entry("event"@, c.event) + string_entry("handler"@, c.handler) + map_entry(
        "headers"@,
        c.headers,
    ) + seq![("path"@, json_string_text(path))] + string_entry("select"@, c.select)
        + string_entry("source"@, c.source) + string_entry("swap"@, c.swap) + string_entry(
        "target"@,
        c.target,
    ) + map_entry("values"@, c.values)
}

/// The value text of the first entry with the given key, if any.
pub open spec fn find_entry(es: Seq<(Seq<char>, Seq<char>)>, k: Seq<char>) -> Option<Seq<char>>
    decreases es.len(),
{
    if es.len() == 0 {
        None
    } else if es[0].0 == k {
        Some(es[0].1)
    } else {
        find_entry(es.drop_first(), k)
    }
}

/// Every value of the entry list is a JSON string literal.
pub open spec fn all_strings(m: Seq<(Seq<char>, Seq<char>)>) -> bool {
    forall|i: int| 0 <= i < m.len() ==> json_string_val((#[trigger] m[i]).1) is Some
}

/// The entry list with each value text replaced by the string it denotes,
/// when all of them are string literals.
pub open spec fn unstring_entries(m: Seq<(Seq<char>, Seq<char>)>) -> Option<
    Seq<(Seq<char>, Seq<char>)>,
> {
    if all_strings(m) {
        Some(m.map_values(|e: (Seq<char>, Seq<char>)| (e.0, json_string_val(e.1)->Some_0)))
    } else {
        None
    }
}

/// Reads an optional string field: absent is fine, a present value must be a
/// string literal. The outer option is the decode outcome.
pub open spec fn field_string(es: Seq<(Seq<char>, Seq<char>)>, k: Seq<char>) -> Option<
    Option<Seq<char>>,
> {
    match find_entry(es, k) {
        None => Some(None),
        Some(t) => match json_string_val(t) {
            Some(s) => Some(Some(s)),
            None => None,
        },
    }
}

/// Reads an optional string map field: a present value must itself be a JSON
/// object of string literals.
pub open spec fn field_map(es: Seq<(Seq<char>, Seq<char>)>, k: Seq<char>) -> Option<
    Option<Seq<(Seq<char>, Seq<char>)>>,
> {
    match find_entry(es, k) {
        None => Some(None),
        Some(t) => match json_obj_entries(encode_utf8(t)) {
            None => None,
            Some(inner) => match unstring_entries(inner) {
                Some(m) => Some(Some(m)),
                None => None,
            },
        },
    }
}

/// A context with at least one present field.
pub open spec fn ctx_nonempty(c: AjaxContextModel) -> bool {
    ||| c.source is Some
    ||| c.event is Some
    ||| c.handler is Some
    ||| c.target is Some
    ||| c.swap is Some
    ||| c.values is Some
    ||| c.headers is Some
    ||| c.select is Some
}

/// Decodes the entries of the location object: the path entry is required
/// and must hold a string that parses as a URI; the known context fields are
/// read, all other entries are ignored, and the context is present exactly
/// when some context field is.
pub open spec fn decode_entries(es: Seq<(Seq<char>, Seq<char>)>) -> Option<LocationModel> {
    match find_entry(es, "path"@) {
        None => None,
        Some(pt) => match json_string_val(pt) {
            None => None,
            Some(ps) => match uri_canon(encode_utf8(ps)) {
                None => None,
                Some(pc) => match (field_string(es, "source"@), field_string(es, "event"@)) {
                    (Some(source), Some(event)) => match (
                        field_string(es, "handler"@),
                        field_string(es, "target"@),
                        field_string(es, "swap"@),
                        field_string(es, "select"@),
                    ) {
                        (Some(handler), Some(target), Some(swap), Some(select)) => match (
                            field_map(es, "values"@),
                            field_map(es, "headers"@),
                        ) {
                            (Some(values), Some(headers)) => {
                                let c = AjaxContextModel {
                                    source,
                                    event,
                                    handler,
                                    target,
                                    swap,
                                    values,
                                    headers,
                                    select,
                                };
                                Some(
                                    LocationModel {
                                        path: pc,
                                        context: if ctx_nonempty(c) {
                                            Some(c)
                                        } else {
                                            None
                                        },
                                    },
                                )
                            },
                            _ => None,
                        },
                        _ => None,
                    },
                    _ => None,
                },
            },
        },
    }
}

/// The location wire format: exactly one value holding a JSON object (the
/// bare URI short form is an encode-side optimization only and does not
/// decode).
pub open spec fn spec_decode_location(values: Seq<Seq<u8>>) -> Option<LocationModel> {
    if values.len() != 1 {
        None
    } else {
        match json_obj_entries(values[0]) {
            None => None,
            Some(es) => decode_entries(es),
        }
    }
}

/// The raw bytes a location encodes to: the bare path text without a
/// context, the canonical object with one.
pub open spec fn spec_encode_location(m: LocationModel) -> Seq<u8> {
    match m.context {
        None => encode_utf8(m.path),
        Some(c) => encode_utf8(obj_text(location_entries(m.path, c))),
    }
}

/// A present string field quotes back to the text it was read from.
pub open spec fn str_field_ok(v: Option<Seq<char>>) -> bool {
    match v {
        Some(s) => json_string_val(json_string_text(s)) == Some(s),
        None => true,
    }
}

/// A present string map renders as a well-formed object that parses back to
/// the same entries, each value quoting back to its string.
pub open spec fn map_field_ok(v: Option<Seq<(Seq<char>, Seq<char>)>>) -> bool {
    match v {
        None => true,
        Some(m) => {
            let ies = string_map_entries(m);
            &&& obj_wf(ies)
            &&& json_obj_entries(encode_utf8(obj_text(ies))) == Some(ies)
            &&& json_value_canon(obj_text(ies)) == Some(obj_text(ies))
            &&& text_chars_ok(obj_text(ies))
            &&& forall|i: int|
                0 <= i < m.len() ==> json_string_val(json_string_text((#[trigger] m[i]).1))
                    == Some(m[i].1)
        },
    }
}

/// What rendering a context establishes about every piece of it.
pub open spec fn ctx_fields_ok(path: Seq<char>, c: AjaxContextModel) -> bool {
    &&& json_string_val(json_string_text(path)) == Some(path)
    &&& str_field_ok(c.source)
    &&& str_field_ok(c.event)
    &&& str_field_ok(c.handler)
    &&& str_field_ok(c.target)
    &&& str_field_ok(c.swap)
    &&& str_field_ok(c.select)
    &&& map_field_ok(c.values)
    &&& map_field_ok(c.headers)
}

/// A renderable context: its pieces are well behaved, the entry list is a
/// well-formed object, and its canonical framing parses back to itself.
pub closed spec fn ctx_render_ok(path: Seq<char>, c: AjaxContextModel) -> bool {
    &&& ctx_fields_ok(path, c)
    &&& obj_wf(location_entries(path, c))
    &&& json_obj_entries(encode_utf8(obj_text(location_entries(path, c)))) == Some(
        location_entries(path, c),
    )
}

/// Allows you to do a client-side redirect that does not do a full page
/// reload: a navigation target with an optional ajax context.
#[derive(Debug, Clone, PartialEq, Eq)]
pub struct HxLocation {
    /// The url to load the response from.
    pub path: Uri,
    /// Other data, mirroring the ajax api context.
    pub context: Option<AjaxContext>,
}

impl View for HxLocation {
    type V = LocationModel;

    open spec fn view(&self) -> LocationModel {
        LocationModel {
            path: self.path@,
            context: match self.context {
                Some(c) => Some(c@),
                None => None,
            },
        }
    }
}

impl HxLocation {
    /// The path is a well-formed URI and a present context renders cleanly.
    pub closed spec fn wf(&self) -> bool {
        &&& self.path.wf()
        &&& match self.context {
            Some(c) => ctx_render_ok(self.path@, c@),
            None => true,
        }
    }

    /// The rendered value can be carried as a header value.
    pub closed spec fn renderable(&self) -> bool {
        match self.context {
            Some(c) => wf_value_bytes(
                encode_utf8(obj_text(location_entries(self.path@, c@))),
            ),
            None => true,
        }
    }

    /// The wire name of this header.
    pub fn name() -> (r: &'static str)
        ensures
            r@ == "hx-location"@,
    {
        "hx-location"
    }

    /// Builds a location value, validating a present context: the maps must
    /// have strictly ascending keys, every piece must render and parse back
    /// cleanly, and the rendered object must be a valid header value.
    /// Without a context this always succeeds.
    pub fn new(path: Uri, context: Option<AjaxContext>) -> (r: Option<HxLocation>)
        requires
            path.wf(),
        ensures
            r is Some ==> r->Some_0.wf() && r->Some_0.renderable() && r->Some_0.path == path
                && r->Some_0.context == context,
            context is None ==> r is Some,
            (context matches Some(c) && ctx_render_ok(path@, c@) && wf_value_bytes(
                encode_utf8(obj_text(location_entries(path@, c@))),
            )) ==> r is Some,
    {
        match context {
            None => Some(HxLocation { path, context: None }),
            Some(c) => {
                match render_location(&path, &c) {
                    Some(text) => {
                        match HeaderValue::from_text(text.as_str()) {
                            Ok(_) => Some(HxLocation { path, context: Some(c) }),
                            Err(_) => None,
                        }
                    },
                    None => None,
                }
            },
        }
    }

    /// Decodes from the raw values carried under this header's name: exactly
    /// one value holding a JSON object with a `path` string that parses as a
    /// URI and any of the known context fields; unknown entries are ignored,
    /// a bare URI value is rejected, and the context is present exactly when
    /// some context field is. To re-encode a decoded value, revalidate it
    /// with [`HxLocation::new`], which establishes what encoding asks for.
    pub fn decode(values: &[HeaderValue]) -> (r: Result<Self, InvalidHeader>)
        ensures
            r is Ok <==> spec_decode_location(views_of(values@)) is Some,
            r is Ok ==> Some(r->Ok_0@) == spec_decode_location(views_of(values@))
                && r->Ok_0.path.wf(),
            r is Ok && r->Ok_0.context is None ==> r->Ok_0.wf() && r->Ok_0.renderable(),
    {
        if values.len() != 1 {
            return Err(InvalidHeader);
        }
        let entries = match parse_object(values[0].as_bytes()) {
            Some(e) => e,
            None => {
                return Err(InvalidHeader);
            },
        };
        let path_str = match find_text(&entries, "path") {
            Some(t) => match unquote_string(t.as_str()) {
                Some(s) => s,
                None => {
                    return Err(InvalidHeader);
                },
            },
            None => {
                return Err(InvalidHeader);
            },
        };
        let path = match Uri::parse_text(path_str.as_str()) {
            Ok(u) => u,
            Err(_) => {
                return Err(InvalidHeader);
            },
        };
        let source = match get_string_field(&entries, "source") {
            Ok(v) => v,
            Err(e) => {
                return Err(e);
            },
        };
        let event = match get_string_field(&entries, "event") {
            Ok(v) => v,
            Err(e) => {
                return Err(e);
            },
        };
        let handler = match get_string_field(&entries, "handler") {
            Ok(v) => v,
            Err(e) => {
                return Err(e);
            },
        };
        let target = match get_string_field(&entries, "target") {
            Ok(v) => v,
            Err(e) => {
                return Err(e);
            },
        };
        let swap = match get_string_field(&entries, "swap") {
            Ok(v) => v,
            Err(e) => {
                return Err(e);
            },
        };
        let select = match get_string_field(&entries, "select") {
            Ok(v) => v,
            Err(e) => {
                return Err(e);
            },
        };
        let values_map = match get_map_field(&entries, "values") {
            Ok(v) => v,
            Err(e) => {
                return Err(e);
            },
        };
        let headers_map = match get_map_field(&entries, "headers") {
            Ok(v) => v,
            Err(e) => {
                return Err(e);
            },
        };
        let any = source.is_some() || event.is_some() || handler.is_some() || target.is_some()
            || swap.is_some() || values_map.is_some() || headers_map.is_some()
            || select.is_some();
        let context = if any {
            Some(
                AjaxContext {
                    source,
                    event,
                    handler,
                    target,
                    swap,
                    values: values_map,
                    headers: headers_map,
                    select,
                },
            )
        } else {
            None
        };
        Ok(HxLocation { path, context })
    }

    /// Appends this header's raw value to an outgoing sequence: the bare
    /// path text without a context, the canonical JSON object with one.
    pub fn encode(&self, out: &mut Vec<HeaderValue>)
        requires
            self.wf(),
            self.renderable(),
        ensures
            appended(old(out)@, final(out)@, spec_encode_location(self@)),
    {
        match &self.context {
            None => {
                proof {
                    lemma_uri_wf(self.path);
                    crate::value::lemma_wire_text_bytes(self.path@);
                }
                match HeaderValue::from_text(self.path.as_text()) {
                    Ok(v) => out.push(v),
                    Err(_) => {
                        proof {
                            assert(false);
                        }
                        vstd::pervasive::unreached()
                    },
                }
            },
            Some(c) => {
                match render_location(&self.path, c) {
                    Some(text) => {
                        match HeaderValue::from_text(text.as_str()) {
                            Ok(v) => out.push(v),
                            Err(_) => {
                                proof {
                                    assert(false);
                                }
                                vstd::pervasive::unreached()
                            },
                        }
                    },
                    None => {
                        proof {
                            assert(false);
                        }
                        vstd::pervasive::unreached()
                    },
                }
            },
        }
    }
}

/// Finds the first entry with the given key, returning its value text.
fn find_text<'a>(entries: &'a Vec<(String, String)>, key: &str) -> (r: Option<&'a String>)
    ensures
        r is Some <==> find_entry(entries_view(entries@), key@) is Some,
        r is Some ==> Some(r->Some_0@) == find_entry(entries_view(entries@), key@),
{
    let ghost es = entries_view(entries@);
    let n = entries.len();
    let mut i: usize = 0;
    proof {
        assert(es.skip(0) =~= es);
    }
    while i < n
        invariant
            es == entries_view(entries@),
            n == entries@.len(),
            0 <= i <= n,
            find_entry(es, key@) == find_entry(es.skip(i as int), key@),
        decreases n - i,
    {
        proof {
            assert(es.skip(i as int)[0] == es[i as int]);
            assert(es[i as int] == ((entries@[i as int].0)@, (entries@[i as int].1)@));
        }
        if crate::value::bytes_eq(entries[i].0.as_str().as_bytes(), key.as_bytes()) {
            proof {
                vstd::utf8::encode_utf8_decode_utf8((entries@[i as int].0)@);
                vstd::utf8::encode_utf8_decode_utf8(key@);
                assert((entries@[i as int].0)@ == key@);
            }
            return Some(&entries[i].1);
        }
        proof {
            vstd::utf8::encode_utf8_decode_utf8((entries@[i as int].0)@);
            vstd::utf8::encode_utf8_decode_utf8(key@);
            assert((entries@[i as int].0)@ != key@);
            assert(es.skip(i as int).drop_first() =~= es.skip(i + 1));
        }
        i += 1;
    }
    proof {
        assert(es.skip(n as int).len() == 0);
    }
    None
}

/// Reads an optional string field from the entries.
fn get_string_field(entries: &Vec<(String, String)>, key: &str) -> (r: Result<
    Option<String>,
    InvalidHeader,
>)
    ensures
        r is Ok <==> field_string(entries_view(entries@), key@) is Some,
        r is Ok ==> Some(opt_view(r->Ok_0)) == field_string(entries_view(entries@), key@),
{
    match find_text(entries, key) {
        None => Ok(None),
        Some(t) => match unquote_string(t.as_str()) {
            Some(s) => Ok(Some(s)),
            None => Err(InvalidHeader),
        },
    }
}

/// Reads an optional string map field from the entries.
#[verifier::loop_isolation(false)]
fn get_map_field(entries: &Vec<(String, String)>, key: &str) -> (r: Result<
    Option<Vec<(String, String)>>,
    InvalidHeader,
>)
    ensures
        r is Ok <==> field_map(entries_view(entries@), key@) is Some,
        r is Ok ==> Some(opt_entries(r->Ok_0)) == field_map(entries_view(entries@), key@),
{
    let t = match find_text(entries, key) {
        None => {
            return Ok(None);
        },
        Some(t) => t,
    };
    let inner = match parse_object(t.as_str().as_bytes()) {
        Some(e) => e,
        None => {
            return Err(InvalidHeader);
        },
    };
    let ghost ies = entries_view(inner@);
    let mut out: Vec<(String, String)> = Vec::new();
    let n = inner.len();
    let mut i: usize = 0;
    while i < n
        invariant
            ies == entries_view(inner@),
            n == inner@.len(),
            0 <= i <= n,
            out@.len() == i,
            forall|k: int| 0 <= k < i ==> json_string_val((#[trigger] ies[k]).1) is Some,
            forall|k: int|
                0 <= k < i ==> ((#[trigger] out@[k]).0)@ == ies[k].0 && Some((out@[k].1)@)
                    == json_string_val(ies[k].1),
        decreases n - i,
    {
        proof {
            assert(ies[i as int] == ((inner@[i as int].0)@, (inner@[i as int].1)@));
        }
        match unquote_string(inner[i].1.as_str()) {
            Some(s) => {
                let k0 = inner[i].0.clone();
                out.push((k0, s));
            },
            None => {
                proof {
                    assert(!all_strings(ies));
                    assert(Some(t@) == find_entry(entries_view(entries@), key@));
                    assert(json_obj_entries(encode_utf8(t@)) == Some(ies));
                    assert(field_map(entries_view(entries@), key@) is None);
                }
                return Err(InvalidHeader);
            },
        }
        i += 1;
    }
    proof {
        assert(all_strings(ies));
        assert(entries_view(out@) =~= unstring_entries(ies)->Some_0);
        assert(Some(t@) == find_entry(entries_view(entries@), key@));
        assert(json_obj_entries(encode_utf8(t@)) == Some(ies));
        assert(field_map(entries_view(entries@), key@) == Some(Some(entries_view(out@))));
    }
    Ok(Some(out))
}

/// Renders a string map as the canonical text of its JSON object, validating
/// its key order and witnessing that the text parses back.
#[verifier::loop_isolation(false)]
fn string_map_text(m: &Vec<(String, String)>) -> (r: Option<String>)
    ensures
        r is Some ==> r->Some_0@ == obj_text(string_map_entries(entries_view(m@)))
            && map_field_ok(Some(entries_view(m@))),
        map_field_ok(Some(entries_view(m@))) ==> r is Some,
{
    let ghost mv = entries_view(m@);
    let ghost ies = string_map_entries(mv);
    let mut q: Vec<(String, String)> = Vec::new();
    let n = m.len();
    let mut i: usize = 0;
    while i < n
        invariant
            mv == entries_view(m@),
            ies == string_map_entries(mv),
            n == m@.len(),
            0 <= i <= n,
            q@.len() == i,
            forall|k: int| 0 <= k < i ==> #[trigger] entries_view(q@)[k] == ies[k],
            forall|k: int|
                0 <= k < i ==> crate::value::scalar_chars((#[trigger] ies[k]).0) && text_chars_ok(
                    ies[k].1,
                ) && json_value_canon(ies[k].1) == Some(ies[k].1) && json_string_val(ies[k].1)
                    == Some(mv[k].1),
            forall|k: int| 1 <= k < i ==> crate::json::key_lt((#[trigger] ies[k - 1]).0, ies[k].0),
        decreases n - i,
    {
        proof {
            assert(mv[i as int] == ((m@[i as int].0)@, (m@[i as int].1)@));
            assert(ies[i as int] == (mv[i as int].0, json_string_text(mv[i as int].1)));
        }
        if i > 0 {
            proof {
                assert(mv[i - 1] == ((m@[i - 1].0)@, (m@[i - 1].1)@));
                assert(ies[i - 1].0 == (m@[i - 1].0)@);
            }
            if !bytes_lt_exec(m[i - 1].0.as_str().as_bytes(), m[i].0.as_str().as_bytes()) {
                proof {
                    assert(!crate::json::key_lt(ies[i - 1].0, ies[i as int].0));
                    assert(!obj_wf(ies));
                }
                return None;
            }
        }
        let sc = check_scalar_chars(m[i].0.as_str());
        if !sc {
            proof {
                assert(false);
            }
            return None;
        }
        let qt = quote_string(m[i].1.as_str());
        let key = m[i].0.clone();
        let ghost qpre = q@;
        q.push((key, qt));
        proof {
            assert(q@ =~= qpre.push((key, qt)));
            assert(entries_view(q@)[i as int] == ((q@[i as int].0)@, (q@[i as int].1)@));
            assert(entries_view(q@)[i as int] == ies[i as int]);
            assert forall|k: int| 0 <= k < i implies #[trigger] entries_view(q@)[k]
                == ies[k] by {
                assert(q@[k] == qpre[k]);
                assert(entries_view(q@)[k] == ((q@[k].0)@, (q@[k].1)@));
                assert(entries_view(qpre)[k] == ((qpre[k].0)@, (qpre[k].1)@));
            }
        }
        i += 1;
    }
    proof {
        assert forall|a: int, b: int| 0 <= a < b < ies.len() implies crate::json::key_lt(
            (#[trigger] ies[a]).0,
            (#[trigger] ies[b]).0,
        ) by {
            lemma_sorted_pairs(ies, a, b);
        }
        assert(obj_wf(ies));
        assert(entries_view(q@) =~= ies);
    }
    let text = build_object_text(&q);
    let check = parse_object(text.as_str().as_bytes());
    match check {
        Some(chk) => {
            proof {
                assert(entries_view(chk@) == ies);
                assert(json_obj_entries(encode_utf8(obj_text(ies))) == Some(ies));
                assert(json_value_canon(obj_text(ies)) == Some(obj_text(ies)));
                assert(text_chars_ok(obj_text(ies)));
                assert forall|k: int| 0 <= k < mv.len() implies json_string_val(
                    json_string_text((#[trigger] mv[k]).1),
                ) == Some(mv[k].1) by {
                    assert(ies[k] == (mv[k].0, json_string_text(mv[k].1)));
                }
            }
            Some(text)
        },
        None => None,
    }
}

/// Builds the entry list of the location object, validating both maps and
/// witnessing the facts that decoding it back will need.
/// Appends the entry of one optional string field, quoting its value.
fn push_string_field(out: &mut Vec<(String, String)>, key: &str, v: &Option<String>)
    ensures
        entries_view(final(out)@) =~= entries_view(old(out)@) + string_entry(key@, opt_view(*v)),
        str_field_ok(opt_view(*v)),
{
    match v {
        Some(s) => {
            let q = quote_string(s.as_str());
            let kk = String::from_str(key);
            proof {
                assert(kk@ == key@);
            }
            let ghost o = out@;
            out.push((kk, q));
            proof {
                crate::json::lemma_entries_view_push(o, out@.last());
                assert(out@ =~= o.push(out@.last()));
                assert(seq![((out@.last().0)@, (out@.last().1)@)] =~= string_entry(
                    key@,
                    opt_view(*v),
                ));
            }
        },
        None => {
            proof {
                assert(string_entry(key@, opt_view(*v)).len() == 0);
                assert(entries_view(out@) =~= entries_view(out@) + string_entry(
                    key@,
                    opt_view(*v),
                ));
            }
        },
    }
}

/// Appends the entry of one optional string map field, rendering it as a
/// JSON object; fails exactly when the map does not render cleanly.
fn push_map_field(out: &mut Vec<(String, String)>, key: &str, v: &Option<Vec<(String, String)>>)
    -> (r: bool)
    ensures
        r ==> entries_view(final(out)@) =~= entries_view(old(out)@) + map_entry(
            key@,
            opt_entries(*v),
        ) && map_field_ok(opt_entries(*v)),
        map_field_ok(opt_entries(*v)) ==> r,
{
    match v {
        Some(m) => {
            match string_map_text(m) {
                Some(t) => {
                    let kk = String::from_str(key);
                    proof {
                        assert(kk@ == key@);
                    }
                    let ghost o = out@;
                    out.push((kk, t));
                    proof {
                        crate::json::lemma_entries_view_push(o, out@.last());
                        assert(out@ =~= o.push(out@.last()));
                        assert(seq![((out@.last().0)@, (out@.last().1)@)] =~= map_entry(
                            key@,
                            opt_entries(*v),
                        ));
                    }
                    true
                },
                None => false,
            }
        },
        None => {
            proof {
                assert(map_entry(key@, opt_entries(*v)).len() == 0);
                assert(entries_view(out@) =~= entries_view(out@) + map_entry(
                    key@,
                    opt_entries(*v),
                ));
            }
            true
        },
    }
}

/// Builds the entry list of the location object, validating both maps and
/// witnessing the facts that decoding it back will need.
#[verifier::rlimit(100)]
fn context_vec(path: &Uri, c: &AjaxContext) -> (r: Option<Vec<(String, String)>>)
    ensures
        r is Some ==> entries_view(r->Some_0@) == location_entries(path@, c@) && ctx_fields_ok(
            path@,
            c@,
        ) && obj_wf(location_entries(path@, c@)),
        ctx_render_ok(path@, c@) ==> r is Some,
{
    let mut out: Vec<(String, String)> = Vec::new();
    proof {
        assert(entries_view(out@) =~= Seq::<(Seq<char>, Seq<char>)>::empty());
    }
    push_string_field(&mut out, "event", &c.event);
    let ghost g1 = string_entry("event"@, c@.event);
    proof {
        assert(entries_view(out@) =~= g1);
    }
    push_string_field(&mut out, "handler", &c.handler);
    let ghost g2 = g1 + string_entry("handler"@, c@.handler);
    proof {
        assert(entries_view(out@) =~= g2);
    }
    if !push_map_field(&mut out, "headers", &c.headers) {
        return None;
    }
    let ghost g3 = g2 + map_entry("headers"@, c@.headers);
    proof {
        assert(entries_view(out@) =~= g3);
    }
    let pq = quote_string(path.as_text());
    let pkey = String::from_str("path");
    proof {
        assert(pkey@ == "path"@);
    }
    let ghost o4 = out@;
    out.push((pkey, pq));
    let ghost g4 = g3 + seq![("path"@, json_string_text(path@))];
    proof {
        crate::json::lemma_entries_view_push(o4, out@.last());
        assert(out@ =~= o4.push(out@.last()));
        assert(seq![((out@.last().0)@, (out@.last().1)@)] =~= seq![
            ("path"@, json_string_text(path@)),
        ]);
        assert(entries_view(out@) =~= g4);
    }
    push_string_field(&mut out, "select", &c.select);
    let ghost g5 = g4 + string_entry("select"@, c@.select);
    proof {
        assert(entries_view(out@) =~= g5);
    }
    push_string_field(&mut out, "source", &c.source);
    let ghost g6 = g5 + string_entry("source"@, c@.source);
    proof {
        assert(entries_view(out@) =~= g6);
    }
    push_string_field(&mut out, "swap", &c.swap);
    let ghost g7 = g6 + string_entry("swap"@, c@.swap);
    proof {
        assert(entries_view(out@) =~= g7);
    }
    push_string_field(&mut out, "target", &c.target);
    let ghost g8 = g7 + string_entry("target"@, c@.target);
    proof {
        assert(entries_view(out@) =~= g8);
    }
    if !push_map_field(&mut out, "values", &c.values) {
        return None;
    }
    let ghost g9 = g8 + map_entry("values"@, c@.values);
    proof {
        assert(entries_view(out@) =~= g9);
        assert(g9 == location_entries(path@, c@));
        assert(entries_view(out@) == location_entries(path@, c@));
    }
    if !check_entry_keys(&out) {
        proof {
            assert(!obj_wf(location_entries(path@, c@)));
        }
        return None;
    }
    proof {
        assert(obj_wf(location_entries(path@, c@)));
    }
    Some(out)
}

/// Walks the entries, witnessing that the keys stand in strictly ascending
/// order and are made of scalar characters and that every value text is
/// canonical: true exactly when adjacent keys are ordered and every value
/// canonicalizes to itself.
#[verifier::loop_isolation(false)]
fn check_entry_keys(out: &Vec<(String, String)>) -> (r: bool)
    ensures
        r <==> (forall|k: int|
            1 <= k < entries_view(out@).len() ==> crate::json::key_lt(
                (#[trigger] entries_view(out@)[k - 1]).0,
                entries_view(out@)[k].0,
            )) && (forall|k: int|
            0 <= k < entries_view(out@).len() ==> json_value_canon(
                (#[trigger] entries_view(out@)[k]).1,
            ) == Some(entries_view(out@)[k].1)),
        r ==> forall|a: int, b: int|
            0 <= a < b < entries_view(out@).len() ==> crate::json::key_lt(
                (#[trigger] entries_view(out@)[a]).0,
                (#[trigger] entries_view(out@)[b]).0,
            ),
        r ==> forall|k: int|
            0 <= k < entries_view(out@).len() ==> crate::value::scalar_chars(
                (#[trigger] entries_view(out@)[k]).0,
            ) && text_chars_ok(entries_view(out@)[k].1),
{
    let ghost es = entries_view(out@);
    let n = out.len();
    let mut i: usize = 1;
    while i < n
        invariant
            1 <= i,
            i <= n || i == 1,
            forall|k: int| 1 <= k < i ==> crate::json::key_lt((#[trigger] es[k - 1]).0, es[k].0),
        decreases n - i,
    {
        proof {
            assert(es[i - 1] == ((out@[i - 1].0)@, (out@[i - 1].1)@));
            assert(es[i as int] == ((out@[i as int].0)@, (out@[i as int].1)@));
        }
        if !bytes_lt_exec(out[i - 1].0.as_str().as_bytes(), out[i].0.as_str().as_bytes()) {
            return false;
        }
        i += 1;
    }
    let mut j: usize = 0;
    while j < n
        invariant
            0 <= j <= n,
            forall|k: int|
                0 <= k < j ==> crate::value::scalar_chars((#[trigger] es[k]).0) && text_chars_ok(
                    es[k].1,
                ) && json_value_canon(es[k].1) == Some(es[k].1),
        decreases n - j,
    {
        proof {
            assert(es[j as int] == ((out@[j as int].0)@, (out@[j as int].1)@));
        }
        let sc = check_scalar_chars(out[j].0.as_str());
        if !sc {
            proof {
                assert(false);
            }
            return false;
        }
        match crate::json::canon_value_text(out[j].1.as_str()) {
            Some(ct) => {
                if !crate::value::bytes_eq(ct.as_str().as_bytes(), out[j].1.as_str().as_bytes()) {
                    proof {
                        vstd::utf8::encode_utf8_decode_utf8(ct@);
                        vstd::utf8::encode_utf8_decode_utf8((out@[j as int].1)@);
                    }
                    return false;
                }
                proof {
                    vstd::utf8::encode_utf8_decode_utf8(ct@);
                    vstd::utf8::encode_utf8_decode_utf8((out@[j as int].1)@);
                    assert(ct@ == es[j as int].1);
                }
            },
            None => {
                return false;
            },
        }
        j += 1;
    }
    proof {
        assert forall|a: int, b: int| 0 <= a < b < es.len() implies crate::json::key_lt(
            (#[trigger] es[a]).0,
            (#[trigger] es[b]).0,
        ) by {
            lemma_sorted_pairs(es, a, b);
        }
    }
    true
}

/// Renders the canonical location object, witnessing that it parses back.
fn render_location(path: &Uri, c: &AjaxContext) -> (r: Option<String>)
    ensures
        r is Some ==> r->Some_0@ == obj_text(location_entries(path@, c@)) && ctx_render_ok(
            path@,
            c@,
        ),
        ctx_render_ok(path@, c@) ==> r is Some,
{
    let v = match context_vec(path, c) {
        Some(v) => v,
        None => {
            return None;
        },
    };
    let text = build_object_text(&v);
    let check = parse_object(text.as_str().as_bytes());
    match check {
        Some(_) => Some(text),
        None => None,
    }
}

/// The text the given optional field contributes as an entry value.
pub open spec fn opt_text(v: Option<Seq<char>>) -> Option<Seq<char>> {
    match v {
        Some(s) => Some(json_string_text(s)),
        None => None,
    }
}

/// The text the given optional map field contributes as an entry value.
pub open spec fn opt_map_text(v: Option<Seq<(Seq<char>, Seq<char>)>>) -> Option<Seq<char>> {
    match v {
        Some(m) => Some(obj_text(string_map_entries(m))),
        None => None,
    }
}

/// Searching a concatenation looks left first.
proof fn lemma_find_append(
    a: Seq<(Seq<char>, Seq<char>)>,
    b: Seq<(Seq<char>, Seq<char>)>,
    k: Seq<char>,
)
    ensures
        find_entry(a + b, k) == (if find_entry(a, k) is Some {
            find_entry(a, k)
        } else {
            find_entry(b, k)
        }),
    decreases a.len(),
{
    if a.len() == 0 {
        assert(a + b =~= b);
    } else {
        assert((a + b)[0] == a[0]);
        assert((a + b).drop_first() =~= a.drop_first() + b);
        lemma_find_append(a.drop_first(), b, k);
    }
}

/// What searching a string entry yields.
proof fn lemma_find_string_entry(k2: Seq<char>, v: Option<Seq<char>>, k: Seq<char>)
    ensures
        find_entry(string_entry(k2, v), k) == (if k2 == k {
            opt_text(v)
        } else {
            Option::<Seq<char>>::None
        }),
{
    match v {
        Some(s) => {
            assert(string_entry(k2, v)[0] == (k2, json_string_text(s)));
            assert(find_entry(string_entry(k2, v).drop_first(), k) is None);
        },
        None => {},
    }
}

/// What searching a map entry yields.
proof fn lemma_find_map_entry(
    k2: Seq<char>,
    v: Option<Seq<(Seq<char>, Seq<char>)>>,
    k: Seq<char>,
)
    ensures
        find_entry(map_entry(k2, v), k) == (if k2 == k {
            opt_map_text(v)
        } else {
            Option::<Seq<char>>::None
        }),
{
    match v {
        Some(m) => {
            assert(map_entry(k2, v)[0] == (k2, obj_text(string_map_entries(m))));
            assert(find_entry(map_entry(k2, v).drop_first(), k) is None);
        },
        None => {},
    }
}

/// What searching the location entries for any key yields: the value the
/// matching known field contributes, or nothing for an absent field or an
/// unknown key.
#[verifier::rlimit(100)]
proof fn lemma_find_location_key(path: Seq<char>, c: AjaxContextModel, k: Seq<char>)
    ensures
        find_entry(location_entries(path, c), k) == (if k == "event"@ {
            opt_text(c.event)
        } else if k == "handler"@ {
            opt_text(c.handler)
        } else if k == "headers"@ {
            opt_map_text(c.headers)
        } else if k == "path"@ {
            Some(json_string_text(path))
        } else if k == "select"@ {
            opt_text(c.select)
        } else if k == "source"@ {
            opt_text(c.source)
        } else if k == "swap"@ {
            opt_text(c.swap)
        } else if k == "target"@ {
            opt_text(c.target)
        } else if k == "values"@ {
            opt_map_text(c.values)
        } else {
            None
        }),
{
    reveal_strlit("event");
    reveal_strlit("handler");
    reveal_strlit("headers");
    reveal_strlit("path");
    reveal_strlit("select");
    reveal_strlit("source");
    reveal_strlit("swap");
    reveal_strlit("target");
    reveal_strlit("values");
    assert("event"@[0] != "handler"@[0]);
    assert("event"@ != "handler"@);
    assert("event"@[0] != "headers"@[0]);
    assert("event"@ != "headers"@);
    assert("event"@[0] != "path"@[0]);
    assert("event"@ != "path"@);
    assert("event"@[0] != "select"@[0]);
    assert("event"@ != "select"@);
    assert("event"@[0] != "source"@[0]);
    assert("event"@ != "source"@);
    assert("event"@[0] != "swap"@[0]);
    assert("event"@ != "swap"@);
    assert("event"@[0] != "target"@[0]);
    assert("event"@ != "target"@);
    assert("event"@[0] != "values"@[0]);
    assert("event"@ != "values"@);
    assert("handler"@[1] != "headers"@[1]);
    assert("handler"@ != "headers"@);
    assert("handler"@[0] != "path"@[0]);
    assert("handler"@ != "path"@);
    assert("handler"@[0] != "select"@[0]);
    assert("handler"@ != "select"@);
    assert("handler"@[0] != "source"@[0]);
    assert("handler"@ != "source"@);
    assert("handler"@[0] != "swap"@[0]);
    assert("handler"@ != "swap"@);
    assert("handler"@[0] != "target"@[0]);
    assert("handler"@ != "target"@);
    assert("handler"@[0] != "values"@[0]);
    assert("handler"@ != "values"@);
    assert("headers"@[0] != "path"@[0]);
    assert("headers"@ != "path"@);
    assert("headers"@[0] != "select"@[0]);
    assert("headers"@ != "select"@);
    assert("headers"@[0] != "source"@[0]);
    assert("headers"@ != "source"@);
    assert("headers"@[0] != "swap"@[0]);
    assert("headers"@ != "swap"@);
    assert("headers"@[0] != "target"@[0]);
    assert("headers"@ != "target"@);
    assert("headers"@[0] != "values"@[0]);
    assert("headers"@ != "values"@);
    assert("path"@[0] != "select"@[0]);
    assert("path"@ != "select"@);
    assert("path"@[0] != "source"@[0]);
    assert("path"@ != "source"@);
    assert("path"@[0] != "swap"@[0]);
    assert("path"@ != "swap"@);
    assert("path"@[0] != "target"@[0]);
    assert("path"@ != "target"@);
    assert("path"@[0] != "values"@[0]);
    assert("path"@ != "values"@);
    assert("select"@[1] != "source"@[1]);
    assert("select"@ != "source"@);
    assert("select"@[1] != "swap"@[1]);
    assert("select"@ != "swap"@);
    assert("select"@[0] != "target"@[0]);
    assert("select"@ != "target"@);
    assert("select"@[0] != "values"@[0]);
    assert("select"@ != "values"@);
    assert("source"@[1] != "swap"@[1]);
    assert("source"@ != "swap"@);
    assert("source"@[0] != "target"@[0]);
    assert("source"@ != "target"@);
    assert("source"@[0] != "values"@[0]);
    assert("source"@ != "values"@);
    assert("swap"@[0] != "target"@[0]);
    assert("swap"@ != "target"@);
    assert("swap"@[0] != "values"@[0]);
    assert("swap"@ != "values"@);
    assert("target"@[0] != "values"@[0]);
    assert("target"@ != "values"@);
    let p1 = string_entry("event"@, c.event);
    lemma_find_string_entry("event"@, c.event, k);
    let p2 = string_entry("handler"@, c.handler);
    lemma_find_string_entry("handler"@, c.handler, k);
    let p3 = map_entry("headers"@, c.headers);
    lemma_find_map_entry("headers"@, c.headers, k);
    let p4 = seq![("path"@, json_string_text(path))];
    assert(find_entry(p4, k) == (if "path"@ == k {
        Some(json_string_text(path))
    } else {
        Option::<Seq<char>>::None
    })) by {
        assert(p4[0] == ("path"@, json_string_text(path)));
        assert(find_entry(p4.drop_first(), k) is None);
    }
    let p5 = string_entry("select"@, c.select);
    lemma_find_string_entry("select"@, c.select, k);
    let p6 = string_entry("source"@, c.source);
    lemma_find_string_entry("source"@, c.source, k);
    let p7 = string_entry("swap"@, c.swap);
    lemma_find_string_entry("swap"@, c.swap, k);
    let p8 = string_entry("target"@, c.target);
    lemma_find_string_entry("target"@, c.target, k);
    let p9 = map_entry("values"@, c.values);
    lemma_find_map_entry("values"@, c.values, k);
    let l1 = p1;
    let l2 = l1 + p2;
    let l3 = l2 + p3;
    let l4 = l3 + p4;
    let l5 = l4 + p5;
    let l6 = l5 + p6;
    let l7 = l6 + p7;
    let l8 = l7 + p8;
    let l9 = l8 + p9;
    assert(location_entries(path, c) == l9);
    lemma_find_append(l1, p2, k);
    lemma_find_append(l2, p3, k);
    lemma_find_append(l3, p4, k);
    lemma_find_append(l4, p5, k);
    lemma_find_append(l5, p6, k);
    lemma_find_append(l6, p7, k);
    lemma_find_append(l7, p8, k);
    lemma_find_append(l8, p9, k);
}

/// What searching the location entries for each known key yields.
proof fn lemma_location_finds(path: Seq<char>, c: AjaxContextModel)
    ensures
        find_entry(location_entries(path, c), "path"@) == Some(json_string_text(path)),
        find_entry(location_entries(path, c), "event"@) == opt_text(c.event),
        find_entry(location_entries(path, c), "handler"@) == opt_text(c.handler),
        find_entry(location_entries(path, c), "select"@) == opt_text(c.select),
        find_entry(location_entries(path, c), "source"@) == opt_text(c.source),
        find_entry(location_entries(path, c), "swap"@) == opt_text(c.swap),
        find_entry(location_entries(path, c), "target"@) == opt_text(c.target),
        find_entry(location_entries(path, c), "headers"@) == opt_map_text(c.headers),
        find_entry(location_entries(path, c), "values"@) == opt_map_text(c.values),
{
    reveal_strlit("event");
    reveal_strlit("handler");
    reveal_strlit("headers");
    reveal_strlit("path");
    reveal_strlit("select");
    reveal_strlit("source");
    reveal_strlit("swap");
    reveal_strlit("target");
    reveal_strlit("values");
    assert("event"@[0] != "handler"@[0]);
    assert("event"@ != "handler"@);
    assert("event"@[0] != "headers"@[0]);
    assert("event"@ != "headers"@);
    assert("event"@[0] != "path"@[0]);
    assert("event"@ != "path"@);
    assert("event"@[0] != "select"@[0]);
    assert("event"@ != "select"@);
    assert("event"@[0] != "source"@[0]);
    assert("event"@ != "source"@);
    assert("event"@[0] != "swap"@[0]);
    assert("event"@ != "swap"@);
    assert("event"@[0] != "target"@[0]);
    assert("event"@ != "target"@);
    assert("event"@[0] != "values"@[0]);
    assert("event"@ != "values"@);
    assert("handler"@[1] != "headers"@[1]);
    assert("handler"@ != "headers"@);
    assert("handler"@[0] != "path"@[0]);
    assert("handler"@ != "path"@);
    assert("handler"@[0] != "select"@[0]);
    assert("handler"@ != "select"@);
    assert("handler"@[0] != "source"@[0]);
    assert("handler"@ != "source"@);
    assert("handler"@[0] != "swap"@[0]);
    assert("handler"@ != "swap"@);
    assert("handler"@[0] != "target"@[0]);
    assert("handler"@ != "target"@);
    assert("handler"@[0] != "values"@[0]);
    assert("handler"@ != "values"@);
    assert("headers"@[0] != "path"@[0]);
    assert("headers"@ != "path"@);
    assert("headers"@[0] != "select"@[0]);
    assert("headers"@ != "select"@);
    assert("headers"@[0] != "source"@[0]);
    assert("headers"@ != "source"@);
    assert("headers"@[0] != "swap"@[0]);
    assert("headers"@ != "swap"@);
    assert("headers"@[0] != "target"@[0]);
    assert("headers"@ != "target"@);
    assert("headers"@[0] != "values"@[0]);
    assert("headers"@ != "values"@);
    assert("path"@[0] != "select"@[0]);
    assert("path"@ != "select"@);
    assert("path"@[0] != "source"@[0]);
    assert("path"@ != "source"@);
    assert("path"@[0] != "swap"@[0]);
    assert("path"@ != "swap"@);
    assert("path"@[0] != "target"@[0]);
    assert("path"@ != "target"@);
    assert("path"@[0] != "values"@[0]);
    assert("path"@ != "values"@);
    assert("select"@[1] != "source"@[1]);
    assert("select"@ != "source"@);
    assert("select"@[1] != "swap"@[1]);
    assert("select"@ != "swap"@);
    assert("select"@[0] != "target"@[0]);
    assert("select"@ != "target"@);
    assert("select"@[0] != "values"@[0]);
    assert("select"@ != "values"@);
    assert("source"@[1] != "swap"@[1]);
    assert("source"@ != "swap"@);
    assert("source"@[0] != "target"@[0]);
    assert("source"@ != "target"@);
    assert("source"@[0] != "values"@[0]);
    assert("source"@ != "values"@);
    assert("swap"@[0] != "target"@[0]);
    assert("swap"@ != "target"@);
    assert("swap"@[0] != "values"@[0]);
    assert("swap"@ != "values"@);
    assert("target"@[0] != "values"@[0]);
    assert("target"@ != "values"@);
    lemma_find_location_key(path, c, "event"@);
    lemma_find_location_key(path, c, "handler"@);
    lemma_find_location_key(path, c, "headers"@);
    lemma_find_location_key(path, c, "path"@);
    lemma_find_location_key(path, c, "select"@);
    lemma_find_location_key(path, c, "source"@);
    lemma_find_location_key(path, c, "swap"@);
    lemma_find_location_key(path, c, "target"@);
    lemma_find_location_key(path, c, "values"@);
}

/// A string field whose text quotes back reads as itself.
proof fn lemma_field_string_ok(
    es: Seq<(Seq<char>, Seq<char>)>,
    k: Seq<char>,
    v: Option<Seq<char>>,
)
    requires
        find_entry(es, k) == opt_text(v),
        str_field_ok(v),
    ensures
        field_string(es, k) == Some(v),
{
}

/// A map field whose rendering parses back reads as itself.
proof fn lemma_field_map_ok(
    es: Seq<(Seq<char>, Seq<char>)>,
    k: Seq<char>,
    v: Option<Seq<(Seq<char>, Seq<char>)>>,
)
    requires
        find_entry(es, k) == opt_map_text(v),
        map_field_ok(v),
    ensures
        field_map(es, k) == Some(v),
{
    match v {
        Some(m) => {
            let ies = string_map_entries(m);
            assert(json_obj_entries(encode_utf8(obj_text(ies))) == Some(ies));
            assert forall|i: int| 0 <= i < ies.len() implies json_string_val(
                (#[trigger] ies[i]).1,
            ) is Some by {
                assert(ies[i] == (m[i].0, json_string_text(m[i].1)));
            }
            assert(all_strings(ies));
            let um = ies.map_values(
                |e: (Seq<char>, Seq<char>)| (e.0, json_string_val(e.1)->Some_0),
            );
            assert forall|i: int| 0 <= i < um.len() implies #[trigger] um[i] == m[i] by {
                assert(ies[i] == (m[i].0, json_string_text(m[i].1)));
                assert(json_string_val(json_string_text(m[i].1)) == Some(m[i].1));
            }
            assert(um =~= m);
        },
        None => {},
    }
}

/// Decoding the encoding of any well-formed location with a context yields
/// an equal value: the JSON object holds the path and exactly the present
/// context fields, and each reads back as it was written.
pub proof fn lemma_location_round_trip(loc: HxLocation)
    requires
        loc.wf(),
        loc.context is Some,
        ctx_nonempty((loc.context->Some_0)@),
    ensures
        spec_decode_location(seq![spec_encode_location(loc@)]) == Some(loc@),
{
    let path = loc.path@;
    let c = (loc.context->Some_0)@;
    let es = location_entries(path, c);
    assert(json_obj_entries(encode_utf8(obj_text(es))) == Some(es));
    lemma_location_finds(path, c);
    lemma_uri_wf(loc.path);
    assert(json_string_val(json_string_text(path)) == Some(path));
    assert(uri_canon(encode_utf8(path)) == Some(path));
    lemma_field_string_ok(es, "source"@, c.source);
    lemma_field_string_ok(es, "event"@, c.event);
    lemma_field_string_ok(es, "handler"@, c.handler);
    lemma_field_string_ok(es, "target"@, c.target);
    lemma_field_string_ok(es, "swap"@, c.swap);
    lemma_field_string_ok(es, "select"@, c.select);
    lemma_field_map_ok(es, "values"@, c.values);
    lemma_field_map_ok(es, "headers"@, c.headers);
    assert(decode_entries(es) == Some(
        LocationModel {
            path,
            context: Some(
                AjaxContextModel {
                    source: c.source,
                    event: c.event,
                    handler: c.handler,
                    target: c.target,
                    swap: c.swap,
                    values: c.values,
                    headers: c.headers,
                    select: c.select,
                },
            ),
        },
    ));
    assert(AjaxContextModel {
        source: c.source,
        event: c.event,
        handler: c.handler,
        target: c.target,
        swap: c.swap,
        values: c.values,
        headers: c.headers,
        select: c.select,
    } =~= c);
    assert(loc@ =~= LocationModel { path, context: Some(c) });
}

} // verus!
