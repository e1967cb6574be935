use htmx_headers::error::InvalidHeader;
use htmx_headers::headers::location::{AjaxContext, HxLocation};
use htmx_headers::headers::request::{
    HxBoosted, HxCurrentUrl, HxHistoryRestoreRequest, HxPrompt, HxRequest, HxTarget,
};
use htmx_headers::headers::response::{
    AfterSettle, AfterSwap, HxModifyHistory, HxPushUrl, HxRedirect, HxRefresh, HxReplaceUrl,
    HxReselect, HxReswap, HxRetarget, HxTrigger,
};
use htmx_headers::uri::Uri;
use htmx_headers::value::HeaderValue;
use htmx_headers::Swap;

fn value(text: &str) -> HeaderValue {
    HeaderValue::from_text(text).unwrap()
}

#[test]
fn trigger_works() {
    let val = value(r#"{"event1":"A message", "event2":"Another message"}"#);

    assert_eq!(
        HxTrigger::<()>::decode(&[val]),
        Ok(HxTrigger::WithDetails(vec![
            ("event1".to_owned(), "\"A message\"".to_owned()),
            ("event2".to_owned(), "\"Another message\"".to_owned()),
        ]))
    );

    let val = value("event1, event2");

    assert_eq!(
        HxTrigger::<()>::decode(&[val]),
        Ok(HxTrigger::List(vec!["event1".to_owned(), "event2".to_owned()]))
    );
}

#[test]
fn true_header_decodes_only_the_literal() {
    assert_eq!(HxBoosted::decode(&[value("true")]), Ok(HxBoosted));
    assert_eq!(HxRequest::decode(&[value("true")]), Ok(HxRequest));
    assert_eq!(
        HxHistoryRestoreRequest::decode(&[value("true")]),
        Ok(HxHistoryRestoreRequest)
    );
    assert_eq!(HxRefresh::decode(&[value("true")]), Ok(HxRefresh));
    assert_eq!(HxBoosted::decode(&[]), Err(InvalidHeader));
    assert_eq!(HxBoosted::decode(&[value("false")]), Err(InvalidHeader));
    assert_eq!(HxBoosted::decode(&[value("True")]), Err(InvalidHeader));
    assert_eq!(
        HxBoosted::decode(&[value("true"), value("true")]),
        Err(InvalidHeader)
    );
}

#[test]
fn true_header_round_trips() {
    let mut out = Vec::new();
    HxBoosted.encode(&mut out);
    assert_eq!(out.len(), 1);
    assert_eq!(out[0].as_bytes(), b"true");
    assert_eq!(HxBoosted::decode(&out), Ok(HxBoosted));
}

#[test]
fn string_header_round_trips() {
    let prompt = HxPrompt("a word from the user".to_owned());
    let mut out = Vec::new();
    prompt.encode(&mut out);
    assert_eq!(out[0].as_bytes(), b"a word from the user");
    assert_eq!(HxPrompt::decode(&out), Ok(prompt));
}

#[test]
fn string_header_rejects_wrong_count_and_bad_text() {
    assert_eq!(HxTarget::decode(&[]), Err(InvalidHeader));
    assert_eq!(
        HxTarget::decode(&[value("a"), value("b")]),
        Err(InvalidHeader)
    );
    // a well-formed header value whose bytes are not valid UTF-8
    let opaque = HeaderValue::from_bytes(vec![0x80]).unwrap();
    assert_eq!(HxTarget::decode(&[opaque]), Err(InvalidHeader));
    // any valid UTF-8 reads back verbatim
    let accented = HeaderValue::from_bytes("caf\u{e9}".as_bytes().to_vec()).unwrap();
    assert_eq!(
        HxTarget::decode(&[accented]),
        Ok(HxTarget("caf\u{e9}".to_owned()))
    );
    assert_eq!(HxRetarget::decode(&[value("#nav")]), Ok(HxRetarget("#nav".to_owned())));
    assert_eq!(HxReselect::decode(&[value(".x")]), Ok(HxReselect(".x".to_owned())));
}

#[test]
fn header_value_rejects_control_bytes() {
    assert!(HeaderValue::from_bytes(vec![b'a', 0x00]).is_err());
    assert!(HeaderValue::from_bytes(vec![0x7f]).is_err());
    assert!(HeaderValue::from_bytes(vec![9, b'x', 0xff]).is_ok());
}

#[test]
fn swap_tokens_round_trip() {
    let all = [
        (Swap::InnerHtml, "innerHtml"),
        (Swap::OuterHtml, "outerHtml"),
        (Swap::BeforeBegin, "beforebegin"),
        (Swap::AfterBegin, "afterbegin"),
        (Swap::BeforeEnd, "beforeend"),
        (Swap::AfterEnd, "afterend"),
        (Swap::Delete, "delete"),
        (Swap::NoSwap, "none"),
    ];
    for (swap, token) in all {
        assert_eq!(HeaderValue::from(swap).as_bytes(), token.as_bytes());
        assert_eq!(Swap::try_from(token.as_bytes()), Ok(swap));
        let mut out = Vec::new();
        HxReswap(swap).encode(&mut out);
        assert_eq!(HxReswap::decode(&out), Ok(HxReswap(swap)));
    }
    assert_eq!(Swap::try_from(b"innerHTML"), Err(InvalidHeader));
    assert_eq!(Swap::try_from(b""), Err(InvalidHeader));
    assert_eq!(HxReswap::decode(&[value("nonsense")]), Err(InvalidHeader));
}

#[test]
fn uri_header_round_trips() {
    let u = Uri::parse_text("https://example.com/widgets?page=2").unwrap();
    let redirect = HxRedirect(u);
    let mut out = Vec::new();
    redirect.encode(&mut out);
    assert_eq!(out[0].as_bytes(), b"https://example.com/widgets?page=2");
    assert_eq!(HxRedirect::decode(&out), Ok(redirect));

    let current = HxCurrentUrl::decode(&[value("/relative/path")]).unwrap();
    assert_eq!(current.0.as_text(), "/relative/path");
}

#[test]
fn uri_header_accepts_utf8_paths() {
    let v = HeaderValue::from_bytes("/caf\u{e9}".as_bytes().to_vec()).unwrap();
    let decoded = HxRedirect::decode(&[v]).unwrap();
    assert_eq!(decoded.0.as_text(), "/caf\u{e9}");
    let mut out = Vec::new();
    decoded.encode(&mut out);
    assert_eq!(out[0].as_bytes(), "/caf\u{e9}".as_bytes());
}

#[test]
fn uri_header_rejects_bad_values() {
    assert!(Uri::parse_text("").is_err());
    assert_eq!(HxRedirect::decode(&[]), Err(InvalidHeader));
    assert_eq!(
        HxRedirect::decode(&[value("with space")]),
        Err(InvalidHeader)
    );
}

#[test]
fn history_modification_union() {
    let decoded: HxModifyHistory<HxPushUrl> =
        HxModifyHistory::decode(&[value("false")]).unwrap();
    assert_eq!(decoded, HxModifyHistory::NoChange);
    let decoded: HxModifyHistory<HxReplaceUrl> =
        HxModifyHistory::decode(&[value("false")]).unwrap();
    assert_eq!(decoded, HxModifyHistory::NoChange);

    let decoded: HxModifyHistory<HxPushUrl> =
        HxModifyHistory::decode(&[value("/account/settings")]).unwrap();
    match &decoded {
        HxModifyHistory::Uri(u) => assert_eq!(u.as_text(), "/account/settings"),
        _ => panic!("expected a url"),
    }

    let mut out = Vec::new();
    HxModifyHistory::<HxPushUrl>::NoChange.encode(&mut out);
    assert_eq!(out[0].as_bytes(), b"false");

    let mut out = Vec::new();
    decoded.encode(&mut out);
    let round: HxModifyHistory<HxPushUrl> = HxModifyHistory::decode(&out).unwrap();
    assert_eq!(round, decoded);
}

#[test]
fn header_names_are_fixed() {
    assert_eq!(HxBoosted::name(), "hx-boosted");
    assert_eq!(HxCurrentUrl::name(), "hx-current-url");
    assert_eq!(HxHistoryRestoreRequest::name(), "hx-history-restore-request");
    assert_eq!(HxPrompt::name(), "hx-prompt");
    assert_eq!(HxRequest::name(), "hx-request");
    assert_eq!(HxTarget::name(), "hx-target");
    assert_eq!(
        htmx_headers::headers::request::HxTriggerName::name(),
        "hx-trigger-name"
    );
    assert_eq!(htmx_headers::headers::request::HxTrigger::name(), "hx-trigger");
    assert_eq!(HxLocation::name(), "hx-location");
    assert_eq!(HxModifyHistory::<HxPushUrl>::name(), "hx-push-url");
    assert_eq!(HxModifyHistory::<HxReplaceUrl>::name(), "hx-replace-url");
    assert_eq!(HxRedirect::name(), "hx-redirect");
    assert_eq!(HxRefresh::name(), "hx-refresh");
    assert_eq!(HxReswap::name(), "hx-reswap");
    assert_eq!(HxRetarget::name(), "hx-retarget");
    assert_eq!(HxReselect::name(), "hx-reselect");
    assert_eq!(HxTrigger::<()>::name(), "hx-trigger");
    assert_eq!(HxTrigger::<AfterSettle>::name(), "hx-trigger-after-settle");
    assert_eq!(HxTrigger::<AfterSwap>::name(), "hx-trigger-after-swap");
}

#[test]
fn trigger_list_round_trips() {
    let trigger: HxTrigger = HxTrigger::List(vec!["alpha".to_owned(), "beta".to_owned()]);
    let mut out = Vec::new();
    trigger.encode(&mut out);
    assert_eq!(out[0].as_bytes(), b"alpha, beta");
    assert_eq!(HxTrigger::<()>::decode(&out), Ok(trigger));
}

#[test]
fn trigger_details_round_trips() {
    let trigger: HxTrigger = HxTrigger::with_details(vec![
        ("event1".to_owned(), "\"A message\"".to_owned()),
        ("event2".to_owned(), "{\"count\": 2}".to_owned()),
    ])
    .unwrap();
    let mut out = Vec::new();
    trigger.encode(&mut out);
    assert_eq!(
        out[0].as_bytes(),
        br#"{"event1":"A message","event2":{"count":2}}"#
    );
    assert_eq!(HxTrigger::<()>::decode(&out), Ok(trigger));
}

#[test]
fn trigger_with_details_rejects_bad_input() {
    // unordered keys
    assert!(HxTrigger::<()>::with_details(vec![
        ("b".to_owned(), "1".to_owned()),
        ("a".to_owned(), "2".to_owned()),
    ])
    .is_none());
    // a value that is not JSON
    assert!(HxTrigger::<()>::with_details(vec![("a".to_owned(), "not json".to_owned())])
        .is_none());
}

#[test]
fn trigger_with_details_rejects_delete_characters() {
    assert!(HxTrigger::<()>::with_details(vec![
        ("a".to_owned(), "\"\u{7f}\"".to_owned()),
    ])
    .is_none());
}

#[test]
fn joined_list_reads_back_as_list() {
    assert!(htmx_headers::headers::response::joined_reads_as_list(&vec![
        "alpha".to_owned(),
        "beta".to_owned(),
    ]));
    assert!(!htmx_headers::headers::response::joined_reads_as_list(&vec!["{}".to_owned()]));
}

#[test]
fn trigger_decode_rejects_unreadable_values() {
    assert_eq!(HxTrigger::<()>::decode(&[]), Err(InvalidHeader));
    let opaque = HeaderValue::from_bytes(vec![0xff]).unwrap();
    assert_eq!(HxTrigger::<()>::decode(&[opaque]), Err(InvalidHeader));
}

#[test]
fn location_encodes_bare_uri_without_context() {
    let path = Uri::parse_text("/test").unwrap();
    let loc = HxLocation::new(path, None).unwrap();
    let mut out = Vec::new();
    loc.encode(&mut out);
    assert_eq!(out[0].as_bytes(), b"/test");
    // the bare short form is not JSON, so it does not decode
    assert_eq!(HxLocation::decode(&out), Err(InvalidHeader));
}

#[test]
fn location_with_context_round_trips() {
    let path = Uri::parse_text("/test").unwrap();
    let ctx = AjaxContext {
        source: Some("#button".to_owned()),
        event: None,
        handler: None,
        target: Some("#content".to_owned()),
        swap: Some("innerHtml".to_owned()),
        values: Some(vec![("name".to_owned(), "x".to_owned())]),
        headers: None,
        select: None,
    };
    let loc = HxLocation::new(path, Some(ctx)).unwrap();
    let mut out = Vec::new();
    loc.encode(&mut out);
    assert_eq!(
        out[0].as_bytes(),
        br##"{"path":"/test","source":"#button","swap":"innerHtml","target":"#content","values":{"name":"x"}}"##
    );
    assert_eq!(HxLocation::decode(&out), Ok(loc));
}

#[test]
fn location_without_context_fields_round_trips_bare() {
    let loc = HxLocation::decode(&[value(r#"{"path":"/a"}"#)]).unwrap();
    assert_eq!(loc.path.as_text(), "/a");
    assert_eq!(loc.context, None);
    let revalidated = HxLocation::new(loc.path, loc.context).unwrap();
    let mut out = Vec::new();
    revalidated.encode(&mut out);
    assert_eq!(out[0].as_bytes(), b"/a");
}

#[test]
fn location_decode_reads_only_known_fields() {
    let v = value(r#"{"path":"/a","unknown":[1,2],"event":"click"}"#);
    let loc = HxLocation::decode(&[v]).unwrap();
    assert_eq!(loc.path.as_text(), "/a");
    let ctx = loc.context.unwrap();
    assert_eq!(ctx.event.as_deref(), Some("click"));
    assert_eq!(ctx.source, None);
}

#[test]
fn location_decode_rejects_bad_objects() {
    // no path
    assert_eq!(
        HxLocation::decode(&[value(r##"{"source":"#x"}"##)]),
        Err(InvalidHeader)
    );
    // path is not a string
    assert_eq!(
        HxLocation::decode(&[value(r#"{"path":3}"#)]),
        Err(InvalidHeader)
    );
    // path does not parse as a URI
    assert_eq!(
        HxLocation::decode(&[value(r#"{"path":"with space"}"#)]),
        Err(InvalidHeader)
    );
    // values must be a map of strings
    assert_eq!(
        HxLocation::decode(&[value(r#"{"path":"/a","values":{"k":1}}"#)]),
        Err(InvalidHeader)
    );
}

#[test]
fn quoting_escapes_content() {
    let path = Uri::parse_text("/x").unwrap();
    let ctx = AjaxContext {
        source: Some("say \"hi\"\\now".to_owned()),
        ..AjaxContext::default()
    };
    let loc = HxLocation::new(path, Some(ctx)).unwrap();
    let mut out = Vec::new();
    loc.encode(&mut out);
    assert_eq!(
        out[0].as_bytes(),
        br#"{"path":"/x","source":"say \"hi\"\\now"}"#
    );
    assert_eq!(HxLocation::decode(&out), Ok(loc));
}
