use xml::{AttrMap, EndTag, Event, Parser, ParserError, ParserErrorKind, StartTag};

fn collect_events(text: &str) -> Vec<Result<Event, ParserError>> {
    let mut p = Parser::new(text.as_bytes().to_vec());
    let mut v = Vec::new();
    while let Some(event) = p.next() {
        v.push(event);
    }
    v
}

#[test]
fn test_start_tag() {
    let mut p = Parser::new("<a>".as_bytes().to_vec());
    let mut i = 0u8;
    while let Some(event) = p.next() {
        i += 1;
        assert_eq!(
            event,
            Ok(Event::ElementStart(StartTag {
                name: "a".to_owned(),
                ns: None,
                prefix: None,
                attributes: AttrMap::new()
            })),
        );
    }
    assert_eq!(i, 1u8);
}

#[test]
fn test_end_tag() {
    let mut p = Parser::new("</a>".as_bytes().to_vec());
    let mut i = 0u8;
    while let Some(event) = p.next() {
        i += 1;
        assert_eq!(
            event,
            Ok(Event::ElementEnd(EndTag {
                name: "a".to_owned(),
                ns: None,
                prefix: None
            })),
        );
    }
    assert_eq!(i, 1u8);
}

#[test]
fn test_self_closing_with_space() {
    let v = collect_events("<register />");
    assert_eq!(
        v,
        vec![
            Ok(Event::ElementStart(StartTag {
                name: "register".to_owned(),
                ns: None,
                prefix: None,
                attributes: AttrMap::new()
            })),
            Ok(Event::ElementEnd(EndTag {
                name: "register".to_owned(),
                ns: None,
                prefix: None,
            }))
        ],
    );
}

#[test]
fn test_self_closing_without_space() {
    let v = collect_events("<register/>");
    assert_eq!(
        v,
        vec![
            Ok(Event::ElementStart(StartTag {
                name: "register".to_owned(),
                ns: None,
                prefix: None,
                attributes: AttrMap::new()
            })),
            Ok(Event::ElementEnd(EndTag {
                name: "register".to_owned(),
                ns: None,
                prefix: None,
            }))
        ],
    );
}

#[test]
fn test_self_closing_namespace() {
    let v = collect_events("<foo:a xmlns:foo='urn:foo'/>");
    let mut attr: AttrMap = AttrMap::new();
    attr.insert(
        (
            "foo".to_owned(),
            Some("http://www.w3.org/2000/xmlns/".to_owned()),
        ),
        "urn:foo".to_owned(),
    );
    assert_eq!(
        v,
        vec![
            Ok(Event::ElementStart(StartTag {
                name: "a".to_owned(),
                ns: Some("urn:foo".to_owned()),
                prefix: Some("foo".to_owned()),
                attributes: attr,
            })),
            Ok(Event::ElementEnd(EndTag {
                name: "a".to_owned(),
                ns: Some("urn:foo".to_owned()),
                prefix: Some("foo".to_owned()),
            }))
        ],
    );
}

#[test]
fn test_pi() {
    let mut p = Parser::new("<?xml version='1.0' encoding='utf-8'?>".as_bytes().to_vec());
    let mut i = 0u8;
    while let Some(event) = p.next() {
        i += 1;
        assert_eq!(
            event,
            Ok(Event::PI("xml version='1.0' encoding='utf-8'".to_owned())),
        );
    }
    assert_eq!(i, 1u8);
}

#[test]
fn test_comment() {
    let mut p = Parser::new("<!--Nothing to see-->".as_bytes().to_vec());
    let mut i = 0u8;
    while let Some(event) = p.next() {
        i += 1;
        assert_eq!(event, Ok(Event::Comment("Nothing to see".to_owned())));
    }
    assert_eq!(i, 1u8);
}

#[test]
fn test_cdata() {
    let mut p = Parser::new(
        "<![CDATA[<html><head><title>x</title></head><body/></html>]]>"
            .as_bytes()
            .to_vec(),
    );
    let mut i = 0u8;
    while let Some(event) = p.next() {
        i += 1;
        assert_eq!(
            event,
            Ok(Event::CDATA(
                "<html><head><title>x</title></head><body/></html>".to_owned()
            )),
        );
    }
    assert_eq!(i, 1u8);
}

#[test]
fn test_characters() {
    let mut p = Parser::new("<text>Hello World, it&apos;s a nice day</text>".as_bytes().to_vec());
    let mut i = 0u8;
    while let Some(event) = p.next() {
        i += 1;
        if i == 2 {
            assert_eq!(
                event,
                Ok(Event::Characters("Hello World, it's a nice day".to_owned())),
            );
        }
    }
    assert_eq!(i, 3u8);
}

#[test]
fn test_doctype() {
    let mut p = Parser::new("<!DOCTYPE html>".as_bytes().to_vec());
    let mut i = 0u8;
    while let Some(_event) = p.next() {
        i += 1;
    }
    assert_eq!(i, 0u8);
}

#[test]
fn test_attribute_order() {
    let input = "<a href='/' title='Home' target='_blank'>";
    let expected_attributes = vec![
        (("href".to_owned(), None), "/".to_owned()),
        (("title".to_owned(), None), "Home".to_owned()),
        (("target".to_owned(), None), "_blank".to_owned()),
    ];

    // Run this 5 times to make it unlikely this test succeeds at random
    for _ in 0..5 {
        let mut p = Parser::new(input.as_bytes().to_vec());
        if let Some(Ok(Event::ElementStart(tag))) = p.next() {
            for (k, expected) in expected_attributes.iter().enumerate() {
                let actual = tag.attributes.entry_at(k);
                assert_eq!(expected, actual);
            }
        } else {
            panic!("Missing ElementStart event");
        }
        assert!(p.next().is_none());
    }
}

#[test]
fn incomplete_tag_yields_nothing() {
    // An incomplete tag never completes: no event and no error.
    let v = collect_events("<a");
    assert!(v.is_empty());
}

#[test]
fn duplicate_attribute_is_an_error() {
    let v = collect_events("<a b='1' b='2'>");
    assert_eq!(v.len(), 1);
    match &v[0] {
        Err(e) => {
            assert_eq!(e.kind, ParserErrorKind::DuplicateAttribute);
            // The error is raised at the tag's closing character.
            assert_eq!(e.line, 1);
            assert_eq!(e.col, 15);
        }
        other => panic!("expected an error, got {:?}", other),
    }
}

#[test]
fn error_poisons_the_parser() {
    let mut p = Parser::new("<!x--><a/>".as_bytes().to_vec());
    match p.next() {
        Some(Err(e)) => assert_eq!(e.kind, ParserErrorKind::MalformedXml),
        other => panic!("expected an error, got {:?}", other),
    }
    assert!(p.next().is_none());
    assert!(p.next().is_none());
}

#[test]
fn unbound_prefix_in_tag_name() {
    let v = collect_events("<foo:a>");
    assert_eq!(v.len(), 1);
    match &v[0] {
        Err(e) => assert_eq!(e.kind, ParserErrorKind::UnboundNsPrefixInTagName),
        other => panic!("expected an error, got {:?}", other),
    }
}

#[test]
fn line_and_column_are_tracked() {
    let v = collect_events("<a>\n<!z");
    match v.last() {
        Some(Err(e)) => {
            assert_eq!(e.kind, ParserErrorKind::MalformedXml);
            assert_eq!(e.line, 2);
            assert_eq!(e.col, 3);
        }
        other => panic!("expected a trailing error, got {:?}", other),
    }
}

#[test]
fn default_namespace_applies_to_bare_names() {
    let v = collect_events("<a xmlns='urn:x'><b/></a>");
    match &v[1] {
        Ok(Event::ElementStart(tag)) => {
            assert_eq!(tag.name, "b");
            assert_eq!(tag.ns, Some("urn:x".to_owned()));
            assert_eq!(tag.prefix, None);
        }
        other => panic!("expected nested start tag, got {:?}", other),
    }
}
