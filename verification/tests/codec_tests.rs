use xml::{escape, unescape, CodecError};

#[test]
fn escape_replaces_the_five_predefined_entities() {
    assert_eq!(
        escape("a&b<c>d'e\"f"),
        "a&amp;b&lt;c&gt;d&apos;e&quot;f".to_owned(),
    );
    assert_eq!(escape("plain"), "plain".to_owned());
    assert_eq!(escape(""), "".to_owned());
}

#[test]
fn unescape_inverts_escape() {
    let inputs = [
        "",
        "plain",
        "a&b<c>d'e\"f",
        "&&&",
        "<![CDATA[x]]>",
        "mixed & <tags> 'quotes' \"too\"",
    ];
    for s in inputs {
        assert_eq!(unescape(&escape(s)), Ok(s.to_owned()));
    }
}

#[test]
fn unescape_handles_numeric_references() {
    assert_eq!(unescape("&#65;&#x42;"), Ok("AB".to_owned()));
    assert_eq!(unescape("&#x1F600;"), Ok("\u{1F600}".to_owned()));
    assert_eq!(unescape("&#48;"), Ok("0".to_owned()));
}

#[test]
fn unescape_rejects_malformed_entities() {
    assert_eq!(unescape("&bogus;"), Err(CodecError::InvalidEntity));
    assert_eq!(unescape("a&"), Err(CodecError::InvalidEntity));
    assert_eq!(unescape("&amp"), Err(CodecError::InvalidEntity));
    assert_eq!(unescape("&#;"), Err(CodecError::InvalidEntity));
    assert_eq!(unescape("&#x;"), Err(CodecError::InvalidEntity));
    assert_eq!(unescape("&#xD800;"), Err(CodecError::InvalidEntity));
    assert_eq!(unescape("&#1114112;"), Err(CodecError::InvalidEntity));
    assert_eq!(unescape("&#12a;"), Err(CodecError::InvalidEntity));
}

#[test]
fn unescape_is_identity_without_ampersands() {
    assert_eq!(unescape("no entities here <>'\""), Ok("no entities here <>'\"".to_owned()));
}
