use xml::{BuilderError, Element, ElementBuilder, Event, Parser, ParserErrorKind};

fn first_error_kind(text: &str) -> ParserErrorKind {
    let mut p = Parser::new(text.as_bytes().to_vec());
    while let Some(event) = p.next() {
        if let Err(e) = event {
            return e.kind;
        }
    }
    panic!("no error in {:?}", text);
}

#[test]
fn each_lexical_error_has_an_input() {
    assert_eq!(
        first_error_kind("<foo:a>"),
        ParserErrorKind::UnboundNsPrefixInTagName,
    );
    assert_eq!(
        first_error_kind("<a foo:b='1'>"),
        ParserErrorKind::UnboundNsPrefixInAttributeName,
    );
    assert_eq!(
        first_error_kind("<a b c='1'>"),
        ParserErrorKind::SpaceInAttributeName,
    );
    assert_eq!(
        first_error_kind("<a b='1' b='2'>"),
        ParserErrorKind::DuplicateAttribute,
    );
    assert_eq!(
        first_error_kind("<a b=c>"),
        ParserErrorKind::UndelimitedAttribute,
    );
    assert_eq!(
        first_error_kind("<a>&nope;</a>"),
        ParserErrorKind::InvalidEntity,
    );
    assert_eq!(
        first_error_kind("<a b='&nope;'>"),
        ParserErrorKind::InvalidEntity,
    );
    assert_eq!(
        first_error_kind("<![CDAT_[x]]>"),
        ParserErrorKind::InvalidCdataStart,
    );
    assert_eq!(
        first_error_kind("<!-x-->"),
        ParserErrorKind::InvalidCommentStart,
    );
    assert_eq!(
        first_error_kind("<!--a--b-->"),
        ParserErrorKind::InvalidCommentContent,
    );
    assert_eq!(first_error_kind("<!DOCTYPX html>"), ParserErrorKind::InvalidDoctype);
    assert_eq!(first_error_kind("<a/ >"), ParserErrorKind::ExpectedTagClose);
    assert_eq!(
        first_error_kind("</a b>"),
        ParserErrorKind::ExpectedLwsOrTagClose,
    );
    assert_eq!(first_error_kind("<!x>"), ParserErrorKind::MalformedXml);
}

#[test]
fn content_after_the_root_is_extra() {
    let mut b = ElementBuilder::new();
    let mut p = Parser::new("<a/>".as_bytes().to_vec());
    let mut root = None;
    while let Some(event) = p.next() {
        if let Some(res) = b.handle_event(event) {
            root = Some(res.unwrap());
        }
    }
    assert!(root.is_some());
    let after = b.handle_event(Ok(Event::Characters("tail".to_owned())));
    assert_eq!(after, Some(Err(BuilderError::ExtraContent)));
}

#[test]
fn content_before_the_root_is_discarded() {
    let elem = Element::from_str("<?xml version='1.0'?> \n<a/>").unwrap();
    assert_eq!(elem.name, "a");
    assert!(elem.children.is_empty());
}

#[test]
fn rendering_an_undeclared_namespace_fails() {
    let mut elem = Element::new("a".to_owned(), None, vec![]);
    elem.ns = Some("urn:nowhere".to_owned());
    assert_eq!(elem.render(), Err(xml::RenderError::UnboundPrefix));
}

#[test]
fn explicit_unbinding_resolves_to_no_namespace() {
    // An empty URI unbinds the default namespace for the subtree.
    let mut p = Parser::new("<a xmlns='urn:x'><b xmlns=''><c/></b></a>".as_bytes().to_vec());
    let mut names_and_ns = Vec::new();
    while let Some(event) = p.next() {
        if let Ok(Event::ElementStart(tag)) = event {
            names_and_ns.push((tag.name, tag.ns));
        }
    }
    assert_eq!(
        names_and_ns,
        vec![
            ("a".to_owned(), Some("urn:x".to_owned())),
            ("b".to_owned(), None),
            ("c".to_owned(), None),
        ],
    );
}

#[test]
fn errors_describe_themselves() {
    let mut p = Parser::new("<a b='1' b='2'>".as_bytes().to_vec());
    let mut msg = None;
    while let Some(event) = p.next() {
        if let Err(e) = event {
            msg = Some(e.message());
        }
    }
    assert_eq!(
        msg,
        Some("Parse error; Line: 1, Column: 15, Reason: Duplicate attribute".to_owned()),
    );
    assert_eq!(
        Element::from_str("<a><b></a></b>").unwrap_err().message(),
        "Close tag does not match the open element".to_owned(),
    );
    assert_eq!(
        Element::from_str("").unwrap_err().message(),
        "No element found".to_owned(),
    );
    assert_eq!(
        xml::ParserErrorKind::MalformedXml.message(),
        "Malformed XML",
    );
    assert_eq!(xml::CodecError::InvalidEntity.message(), "Found invalid entity");
    assert_eq!(
        xml::RenderError::UnboundPrefix.message(),
        "No namespace prefix bound",
    );
}
