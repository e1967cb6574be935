//! The library's JSON boundary. Parsing and rendering single JSON values is
//! done by serde_json behind the trusted items below; the object layout (the
//! braces, colons and commas of the canonical form) is framed by verified
//! code. An object is modelled as its sequence of entries, each entry a key
//! and the canonical text of its value, in strictly ascending key order, as
//! serde_json's ordered map yields them.

use vstd::prelude::*;
use vstd::string::{StrSliceExecFns, StringExecFns, StringSliceAdditionalSpecFns};
use vstd::utf8::encode_utf8;

use crate::value::{scalar_chars, wire_text};

verus! {

/// The entries of the JSON object the bytes parse into, if they parse as an
/// object at all: keys in strictly ascending order, each value rendered in
/// its canonical text form.
pub uninterp spec fn json_obj_entries(bytes: Seq<u8>) -> Option<Seq<(Seq<char>, Seq<char>)>>;

/// The JSON string literal that denotes the given text: quotes around the
/// text, with quote, backslash and control characters escaped.
pub uninterp spec fn json_string_text(s: Seq<char>) -> Seq<char>;

/// The text a JSON string literal denotes, if the given text is one.
pub uninterp spec fn json_string_val(t: Seq<char>) -> Option<Seq<char>>;

/// The canonical rendering of the JSON value the given text denotes, if it
/// denotes one.
pub uninterp spec fn json_value_canon(t: Seq<char>) -> Option<Seq<char>>;

/// A byte that JSON parsing skips as whitespace.
pub open spec fn json_ws(b: u8) -> bool {
    b == 32 || b == 9 || b == 10 || b == 13
}

/// The bytes with their leading JSON whitespace removed.
pub open spec fn after_ws(b: Seq<u8>) -> Seq<u8>
    decreases b.len(),
{
    if b.len() > 0 && json_ws(b[0]) {
        after_ws(b.drop_first())
    } else {
        b
    }
}

/// After leading whitespace, the bytes open a JSON object.
pub open spec fn starts_obj(b: Seq<u8>) -> bool {
    after_ws(b).len() > 0 && after_ws(b)[0] == 123
}

/// Strict lexicographic order on byte sequences.
pub open spec fn bytes_lt(a: Seq<u8>, b: Seq<u8>) -> bool
    decreases a.len(),
{
    if b.len() == 0 {
        false
    } else if a.len() == 0 {
        true
    } else if a[0] < b[0] {
        true
    } else if a[0] > b[0] {
        false
    } else {
        bytes_lt(a.drop_first(), b.drop_first())
    }
}

/// The order in which serde_json's map sorts its keys: lexicographic on the
/// UTF-8 encoding.
pub open spec fn key_lt(a: Seq<char>, b: Seq<char>) -> bool {
    bytes_lt(encode_utf8(a), encode_utf8(b))
}

/// Text whose characters are all scalar values from 32 on: what canonical
/// JSON value texts are made of.
pub open spec fn text_chars_ok(t: Seq<char>) -> bool {
    forall|i: int| 0 <= i < t.len() ==> 32 <= (#[trigger] t[i]) as int <= 0x10ffff
}

/// A well-formed entry list of a JSON object: keys of scalar characters in
/// strictly ascending order, each value text canonical.
pub open spec fn obj_wf(es: Seq<(Seq<char>, Seq<char>)>) -> bool {
    &&& forall|i: int, j: int| 0 <= i < j < es.len() ==> key_lt(#[trigger] es[i].0, #[trigger] es[j].0)
    &&& forall|i: int|
        0 <= i < es.len() ==> scalar_chars((#[trigger] es[i]).0) && text_chars_ok(es[i].1)
            && json_value_canon(es[i].1) == Some(es[i].1)
}

/// One entry in the canonical object form: quoted key, colon, value text.
pub open spec fn entry_text(e: (Seq<char>, Seq<char>)) -> Seq<char> {
    json_string_text(e.0) + ":"@ + e.1
}

/// The comma-separated entries of the canonical object form.
pub open spec fn entries_text(es: Seq<(Seq<char>, Seq<char>)>) -> Seq<char>
    decreases es.len(),
{
    if es.len() == 0 {
        Seq::empty()
    } else if es.len() == 1 {
        entry_text(es[0])
    } else {
        entries_text(es.drop_last()) + ","@ + entry_text(es.last())
    }
}

/// The canonical text of the JSON object with the given entries.
pub open spec fn obj_text(es: Seq<(Seq<char>, Seq<char>)>) -> Seq<char> {
    "{"@ + entries_text(es) + "}"@
}

/// The entry views of an entry list held in executable form.
pub open spec fn entries_view(v: Seq<(String, String)>) -> Seq<(Seq<char>, Seq<char>)> {
    v.map_values(|p: (String, String)| (p.0@, p.1@))
}

/// Relies on serde_json: `from_slice` into `Map<String, Value>` succeeds
/// exactly when the bytes hold one JSON object within the parser's nesting
/// depth (so only after whitespace and an opening brace), iterates it sorted
/// by key, and `to_string` renders each value canonically; when the
/// canonical framing of a well-formed entry list parses at all, it yields
/// that list back, and any text holding a parsed object canonicalizes to the
/// framing of its entries. Nothing is claimed of whether a framed text
/// parses: serde_json refuses documents nested beyond a fixed depth.
#[verifier::external_body]
pub(crate) fn parse_object(bytes: &[u8]) -> (r: Option<Vec<(String, String)>>)
    ensures
        r is Some <==> json_obj_entries(bytes@) is Some,
        r is Some ==> Some(entries_view(r->Some_0@)) == json_obj_entries(bytes@),
        r is Some ==> obj_wf(entries_view(r->Some_0@)),
        r is Some ==> text_chars_ok(obj_text(entries_view(r->Some_0@))),
        !starts_obj(bytes@) ==> r is None,
        forall|t: Seq<char>|
            r is Some && bytes@ == encode_utf8(t) ==> json_value_canon(t) == Some(
                obj_text(json_obj_entries(bytes@)->Some_0),
            ),
        forall|es: Seq<(Seq<char>, Seq<char>)>|
            obj_wf(es) && bytes@ == encode_utf8(#[trigger] obj_text(es)) && r is Some
                ==> entries_view(r->Some_0@) == es,
{
    let m: serde_json::Map<String, serde_json::Value> = match serde_json::from_slice(bytes) {
        Ok(m) => m,
        Err(_) => return None,
    };
    let mut out: Vec<(String, String)> = Vec::new();
    for (k, v) in m {
        let text = match serde_json::to_string(&v) {
            Ok(t) => t,
            Err(_) => String::new(),
        };
        out.push((k, text));
    }
    Some(out)
}

/// Relies on serde_json::to_string on a string slice: it renders the JSON
/// string literal denoting the text, escaping quote, backslash and control
/// characters and leaving all other characters as they are; the result parses
/// back to the same text and is canonical.
#[verifier::external_body]
pub(crate) fn quote_string(s: &str) -> (r: String)
    ensures
        r@ == json_string_text(s@),
        json_string_val(r@) == Some(s@),
        json_value_canon(r@) == Some(r@),
        text_chars_ok(r@),
        (forall|i: int| 0 <= i < s@.len() ==> (#[trigger] s@[i]) as int != 127) ==> wire_text(r@),
{
    match serde_json::to_string(s) {
        Ok(t) => t,
        Err(_) => String::new(),
    }
}

/// Relies on serde_json::from_str for String: it succeeds exactly when the
/// text is one JSON string literal, yielding the text it denotes; quoting
/// that text again yields a canonical literal back.
#[verifier::external_body]
pub(crate) fn unquote_string(t: &str) -> (r: Option<String>)
    ensures
        r is Some <==> json_string_val(t@) is Some,
        r is Some ==> Some(r->Some_0@) == json_string_val(t@),
        r is Some && json_value_canon(t@) == Some(t@) ==> json_string_text(r->Some_0@) == t@,
        r is Some ==> scalar_chars(r->Some_0@),
{
    serde_json::from_str::<String>(t).ok()
}

/// Relies on serde_json: `from_str` into `Value` followed by `to_string`
/// renders any JSON value text in its canonical form; canonical texts render
/// to themselves.
#[verifier::external_body]
pub(crate) fn canon_value_text(t: &str) -> (r: Option<String>)
    ensures
        r is Some <==> json_value_canon(t@) is Some,
        r is Some ==> Some(r->Some_0@) == json_value_canon(t@),
        r is Some ==> json_value_canon(r->Some_0@) == Some(r->Some_0@),
        r is Some ==> text_chars_ok(r->Some_0@),
{
    match serde_json::from_str::<serde_json::Value>(t) {
        Ok(v) => serde_json::to_string(&v).ok(),
        Err(_) => None,
    }
}

/// Strict lexicographic byte comparison of two slices.
pub(crate) fn bytes_lt_exec(a: &[u8], b: &[u8]) -> (r: bool)
    ensures
        r == bytes_lt(a@, b@),
{
    let an = a.len();
    let bn = b.len();
    let mut i: usize = 0;
    while i < an && i < bn
        invariant
            an == a@.len(),
            bn == b@.len(),
            0 <= i <= an,
            i <= bn,
            forall|k: int| 0 <= k < i ==> a@[k] == b@[k],
        decreases an - i,
    {
        let x = a[i];
        let y = b[i];
        if x < y {
            proof {
                lemma_bytes_lt_skip(a@, b@, i as int);
            }
            return true;
        }
        if x > y {
            proof {
                lemma_bytes_lt_skip(a@, b@, i as int);
            }
            return false;
        }
        i += 1;
    }
    proof {
        lemma_bytes_lt_skip(a@, b@, i as int);
    }
    an < bn
}

/// Equal prefixes do not decide the lexicographic order.
proof fn lemma_bytes_lt_skip(a: Seq<u8>, b: Seq<u8>, i: int)
    requires
        0 <= i <= a.len(),
        i <= b.len(),
        forall|k: int| 0 <= k < i ==> a[k] == b[k],
    ensures
        bytes_lt(a, b) == bytes_lt(a.skip(i), b.skip(i)),
    decreases i,
{
    if i == 0 {
        assert(a.skip(0) =~= a);
        assert(b.skip(0) =~= b);
    } else {
        assert(a.len() > 0 && b.len() > 0 && a[0] == b[0]);
        assert(bytes_lt(a, b) == bytes_lt(a.drop_first(), b.drop_first()));
        assert(a.drop_first() =~= a.skip(1));
        assert(b.drop_first() =~= b.skip(1));
        assert(forall|k: int| 0 <= k < i - 1 ==> #[trigger] a.skip(1)[k] == b.skip(1)[k]);
        lemma_bytes_lt_skip(a.skip(1), b.skip(1), i - 1);
        assert(a.skip(1).skip(i - 1) =~= a.skip(i));
        assert(b.skip(1).skip(i - 1) =~= b.skip(i));
    }
}

/// Lexicographic order on byte sequences is transitive.
proof fn lemma_bytes_lt_trans(a: Seq<u8>, b: Seq<u8>, c: Seq<u8>)
    requires
        bytes_lt(a, b),
        bytes_lt(b, c),
    ensures
        bytes_lt(a, c),
    decreases a.len(),
{
    if a.len() > 0 && b.len() > 0 && a[0] == b[0] && b[0] == c[0] {
        lemma_bytes_lt_trans(a.drop_first(), b.drop_first(), c.drop_first());
    }
}

/// Adjacent order extends to all pairs.
pub proof fn lemma_sorted_pairs(es: Seq<(Seq<char>, Seq<char>)>, a: int, b: int)
    requires
        forall|k: int| 1 <= k < es.len() ==> key_lt((#[trigger] es[k - 1]).0, es[k].0),
        0 <= a < b < es.len(),
    ensures
        key_lt(es[a].0, es[b].0),
    decreases b - a,
{
    if b == a + 1 {
        assert(key_lt(es[b - 1].0, es[b].0));
    } else {
        lemma_sorted_pairs(es, a, b - 1);
        assert(key_lt(es[b - 1].0, es[b].0));
        lemma_bytes_lt_trans(
            encode_utf8(es[a].0),
            encode_utf8(es[b - 1].0),
            encode_utf8(es[b].0),
        );
    }
}

/// Appending one entry appends its views.
pub proof fn lemma_entries_view_push(v: Seq<(String, String)>, p: (String, String))
    ensures
        entries_view(v.push(p)) =~= entries_view(v) + seq![(p.0@, p.1@)],
{
    assert forall|i: int| 0 <= i < v.len() + 1 implies #[trigger] entries_view(v.push(p))[i] == (
    entries_view(v) + seq![(p.0@, p.1@)])[i] by {
        if i < v.len() {
            assert(v.push(p)[i] == v[i]);
        } else {
            assert(v.push(p)[i] == p);
        }
    }
}

/// Splitting an entry list before its last entry splits its text at the last
/// comma.
proof fn lemma_entries_text_snoc(es: Seq<(Seq<char>, Seq<char>)>, i: int)
    requires
        0 <= i < es.len(),
    ensures
        entries_text(es.take(i + 1)) == if i == 0 {
            entry_text(es[0])
        } else {
            entries_text(es.take(i)) + ","@ + entry_text(es[i])
        },
{
    let p = es.take(i + 1);
    assert(p.len() == i + 1);
    if i == 0 {
        assert(p[0] == es[0]);
    } else {
        assert(p.drop_last() =~= es.take(i));
        assert(p.last() == es[i]);
    }
}

/// Renders the canonical text of the JSON object with the given entries: an
/// opening brace, the quoted keys and value texts joined with colons and
/// commas, and a closing brace.
pub fn build_object_text(entries: &Vec<(String, String)>) -> (r: String)
    ensures
        r@ == obj_text(entries_view(entries@)),
{
    let ghost es = entries_view(entries@);
    let mut out = String::from_str("{");
    let n = entries.len();
    let mut i: usize = 0;
    proof {
        assert(es.take(0) =~= Seq::empty());
        assert(out@ == "{"@ + entries_text(es.take(0)));
    }
    while i < n
        invariant
            n == entries@.len(),
            es == entries_view(entries@),
            0 <= i <= n,
            out@ == "{"@ + entries_text(es.take(i as int)),
        decreases n - i,
    {
        if i > 0 {
            out.append(",");
        }
        let q = quote_string(entries[i].0.as_str());
        out.append(q.as_str());
        out.append(":");
        out.append(entries[i].1.as_str());
        proof {
            assert(es[i as int] == (entries@[i as int].0@, entries@[i as int].1@));
            lemma_entries_text_snoc(es, i as int);
        }
        i += 1;
    }
    out.append("}");
    proof {
        assert(es.take(n as int) =~= es);
    }
    out
}

/// Concatenation preserves wire-safe text.
pub proof fn lemma_wire_text_concat(a: Seq<char>, b: Seq<char>)
    requires
        wire_text(a),
        wire_text(b),
    ensures
        wire_text(a + b),
{
    assert forall|i: int| 0 <= i < (a + b).len() implies crate::value::wire_char(
        #[trigger] (a + b)[i],
    ) by {
        if i < a.len() {
            assert((a + b)[i] == a[i]);
        } else {
            assert((a + b)[i] == b[i - a.len()]);
        }
    }
}

/// The canonical object text of entries whose quoted keys and value texts are
/// wire safe is wire safe.
pub proof fn lemma_obj_text_wire(es: Seq<(Seq<char>, Seq<char>)>)
    requires
        forall|i: int|
            0 <= i < es.len() ==> wire_text(json_string_text((#[trigger] es[i]).0)) && wire_text(
                es[i].1,
            ),
    ensures
        wire_text(obj_text(es)),
{
    reveal_strlit("{");
    reveal_strlit("}");
    reveal_strlit(",");
    reveal_strlit(":");
    assert(wire_text("{"@));
    assert(wire_text("}"@));
    assert(wire_text(","@));
    assert(wire_text(":"@));
    lemma_entries_text_wire(es);
    lemma_wire_text_concat("{"@, entries_text(es));
    lemma_wire_text_concat("{"@ + entries_text(es), "}"@);
}

/// The joined entries of such an entry list are wire safe.
proof fn lemma_entries_text_wire(es: Seq<(Seq<char>, Seq<char>)>)
    requires
        forall|i: int|
            0 <= i < es.len() ==> wire_text(json_string_text((#[trigger] es[i]).0)) && wire_text(
                es[i].1,
            ),
    ensures
        wire_text(entries_text(es)),
    decreases es.len(),
{
    reveal_strlit(",");
    reveal_strlit(":");
    assert(wire_text(","@));
    assert(wire_text(":"@));
    if es.len() == 0 {
    } else if es.len() == 1 {
        lemma_wire_text_concat(json_string_text(es[0].0), ":"@);
        lemma_wire_text_concat(json_string_text(es[0].0) + ":"@, es[0].1);
    } else {
        assert(forall|i: int|
            0 <= i < es.drop_last().len() ==> #[trigger] es.drop_last()[i] == es[i]);
        lemma_entries_text_wire(es.drop_last());
        lemma_wire_text_concat(json_string_text(es.last().0), ":"@);
        lemma_wire_text_concat(json_string_text(es.last().0) + ":"@, es.last().1);
        lemma_wire_text_concat(entries_text(es.drop_last()), ","@);
        lemma_wire_text_concat(entries_text(es.drop_last()) + ","@, entry_text(es.last()));
    }
}

} // verus!
