use kbc_core::item::{
    decode_html_entities, format_gift_detail, not_found_message, parse_id, parse_request,
    replace_html_breaks, ItemRequest,
};

fn chars(s: &str) -> Vec<char> {
    s.chars().collect()
}

#[test]
fn parses_supported_item_requests() {
    assert!(matches!(parse_request(&[]), ItemRequest::Schedule));
    assert!(matches!(
        parse_request(&["828".to_owned(), "JSON".to_owned()]),
        ItemRequest::Json { id: 828 }
    ));
    assert!(matches!(
        parse_request(&["828".to_owned(), "other".to_owned()]),
        ItemRequest::Usage
    ));
}

#[test]
fn reads_item_ids() {
    assert_eq!(parse_id(&chars("12")), Some(12));
    assert_eq!(parse_id(&chars("+12")), None);
    assert_eq!(parse_id(&chars("")), None);
    assert_eq!(parse_id(&chars("9007199254740991")), Some(9_007_199_254_740_991));
    assert_eq!(parse_id(&chars("9007199254740992")), None);
    assert_eq!(parse_request(&["x".to_owned()]), ItemRequest::Usage);
    assert_eq!(parse_request(&["5".to_owned()]), ItemRequest::Detail { id: 5 });
    assert_eq!(parse_request(&["5".to_owned(), "r".to_owned()]), ItemRequest::Raw { id: 5 });
    assert_eq!(
        parse_request(&["5".to_owned(), "j".to_owned(), "x".to_owned()]),
        ItemRequest::Usage
    );
}

#[test]
fn decodes_entities() {
    assert_eq!(decode_html_entities("a &amp; b &LT;&#x41;&#66;&bogus; &"), "a & b <AB&bogus; &");
    assert_eq!(decode_html_entities("&#xD800;"), "&#xD800;");
    assert_eq!(decode_html_entities("x&nbsp;y &quot;q&quot; it&apos;s"), "x y \"q\" it's");
}

#[test]
fn cleans_gift_details() {
    assert_eq!(replace_html_breaks("a<br>b<BR />c"), "a\nb\nc");
    assert_eq!(
        format_gift_detail("  <b>Title</b>&amp;co<br><br><br><br>next  \r\nline\r\n"),
        "Title&co\n\nnext\nline"
    );
}

#[test]
fn formats_the_missing_id_message() {
    assert_eq!(
        not_found_message(-3),
        "❌ `-3` は giftType・eventID のどちらでも見つかりませんでした"
    );
}
