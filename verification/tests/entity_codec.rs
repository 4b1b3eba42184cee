use instant_xml::entity::{decode, encode};
use instant_xml::Error;

#[test]
fn test_decode() {
    assert_eq!(decode("foo").unwrap().text, "foo");
    assert_eq!(decode("foo &amp; bar").unwrap().text, "foo & bar");
    assert_eq!(decode("foo &lt; bar").unwrap().text, "foo < bar");
    assert_eq!(decode("foo &gt; bar").unwrap().text, "foo > bar");
    assert_eq!(decode("foo &quot; bar").unwrap().text, "foo \" bar");
    assert_eq!(decode("foo &apos; bar").unwrap().text, "foo ' bar");
    assert_eq!(decode("foo &amp;lt; bar").unwrap().text, "foo &lt; bar");
    assert_eq!(decode("&amp; foo").unwrap().text, "& foo");
    assert_eq!(decode("foo &amp;").unwrap().text, "foo &");
    assert_eq!(decode("cbdtéda&amp;sü").unwrap().text, "cbdtéda&sü");
    assert!(decode("&foo;").is_err());
    assert!(decode("&foobar;").is_err());
    assert!(decode("cbdtéd&ampü").is_err());
}

#[test]
fn decode_reports_substitution() {
    let plain = decode("nothing here").unwrap();
    assert_eq!(plain.text, "nothing here");
    assert!(!plain.substituted);

    let replaced = decode("a &amp; b").unwrap();
    assert_eq!(replaced.text, "a & b");
    assert!(replaced.substituted);
}

#[test]
fn decode_invalid_entity_payload() {
    assert_eq!(decode("&foo;"), Err(Error::InvalidEntity("foo".to_string())));
    assert_eq!(
        decode("&toolong;"),
        Err(Error::InvalidEntity("toolo".to_string()))
    );
}

#[test]
fn decode_unterminated_entity_passes_through() {
    let out = decode("foo &amp").unwrap();
    assert_eq!(out.text, "foo &amp");
    assert!(!out.substituted);
}

#[test]
fn encode_replaces_the_five_entities() {
    let out = encode("a&b<c>d\"e'f").unwrap();
    assert_eq!(out.text, "a&amp;b&lt;c&gt;d&quot;e&apos;f");
    assert!(out.substituted);

    let plain = encode("plain text").unwrap();
    assert_eq!(plain.text, "plain text");
    assert!(!plain.substituted);
}

#[test]
fn decode_undoes_encode() {
    let cases = [
        "",
        "plain",
        "a&b",
        "<tag attr=\"v\">'quoted'</tag>",
        "cbdtéda&sü",
        "&&&&",
    ];
    let mut k: usize = 0;
    while k < cases.len() {
        let s = cases[k];
        let enc = encode(s).unwrap();
        let dec = decode(&enc.text).unwrap();
        assert_eq!(dec.text, s);
        k += 1;
    }
}
