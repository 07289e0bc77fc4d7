use xml::{BuilderError, Element};

#[test]
fn test_get_children() {
    let elem: Element = Element::from_str("<a><b/><c/><b/></a>").unwrap();
    let b = Element::new("b".to_owned(), None, vec![]);
    let mut cs = elem.get_children("b", None);
    assert_eq!(cs.len(), 2);
    assert_eq!(cs.next(), Some(&b));
    assert_eq!(cs.next(), Some(&b));
    assert_eq!(cs.next(), None);
}

#[test]
fn test_get_child() {
    let elem: Element = Element::from_str("<a><b/><c/><b/></a>").unwrap();
    assert_eq!(
        elem.get_child("b", None),
        Some(&Element::new("b".to_owned(), None, vec![])),
    );
}

#[test]
fn test_attribute_order_new() {
    let input_attributes = vec![
        ("href".to_owned(), None, "/".to_owned()),
        ("title".to_owned(), None, "Home".to_owned()),
        ("target".to_owned(), None, "_blank".to_owned()),
    ];

    // Run this 5 times to make it unlikely this test succeeds at random
    for _ in 0..5 {
        let elem = Element::new("a".to_owned(), None, input_attributes.clone());
        for (k, expected) in input_attributes.iter().enumerate() {
            let actual = elem.attributes.entry_at(k);
            assert_eq!(expected.0, (actual.0).0);
            assert_eq!(expected.1, (actual.0).1);
            assert_eq!(expected.2, actual.1);
        }
    }
}

#[test]
fn test_attribute_order_added() {
    let input_attributes = vec![
        ("href".to_owned(), None, "/".to_owned()),
        ("title".to_owned(), None, "Home".to_owned()),
        ("target".to_owned(), None, "_blank".to_owned()),
    ];

    // Run this 5 times to make it unlikely this test succeeds at random
    for _ in 0..5 {
        let mut elem = Element::new("a".to_owned(), None, vec![]);
        for attr in &input_attributes {
            elem.set_attribute(attr.0.clone(), attr.1.clone(), attr.2.clone());
        }
        for (k, expected) in input_attributes.iter().enumerate() {
            let actual = elem.attributes.entry_at(k);
            assert_eq!(expected.0, (actual.0).0);
            assert_eq!(expected.1, (actual.0).1);
            assert_eq!(expected.2, actual.1);
        }
    }
}

#[test]
fn attribute_get_set_remove() {
    let mut elem = Element::new("a".to_owned(), None, vec![]);
    assert_eq!(elem.get_attribute("x", None), None);
    assert_eq!(elem.set_attribute("x".to_owned(), None, "1".to_owned()), None);
    assert_eq!(elem.get_attribute("x", None), Some("1"));
    assert_eq!(
        elem.set_attribute("x".to_owned(), None, "2".to_owned()),
        Some("1".to_owned()),
    );
    assert_eq!(elem.get_attribute("x", None), Some("2"));
    assert_eq!(elem.get_attribute("x", Some("urn:y")), None);
    assert_eq!(elem.remove_attribute("x", None), Some("2".to_owned()));
    assert_eq!(elem.remove_attribute("x", None), None);
    assert_eq!(elem.get_attribute("x", None), None);
}

#[test]
fn content_str_concatenates_in_document_order() {
    let elem = Element::from_str("<a>x<b>y</b><!--c--><?p?>z</a>").unwrap();
    assert_eq!(elem.content_str(), "xyz");
}

#[test]
fn fluent_appenders_build_children() {
    let mut elem = Element::new("a".to_owned(), None, vec![]);
    elem.text("x".to_owned());
    elem.tag(Element::new("b".to_owned(), None, vec![]));
    elem.tag_stay(Element::new("c".to_owned(), None, vec![]));
    elem.cdata("y".to_owned());
    elem.comment("note".to_owned());
    elem.pi("p".to_owned());
    assert_eq!(elem.children.len(), 6);
    assert_eq!(elem.content_str(), "xy");
    assert!(elem.get_child("b", None).is_some());
    assert!(elem.get_child("c", None).is_some());
}

#[test]
fn mismatched_close_tag_is_a_structural_error() {
    let r = Element::from_str("<a><b></a></b>");
    assert_eq!(r, Err(BuilderError::MismatchedTag));
}

#[test]
fn unexpected_close_is_a_structural_error() {
    let r = Element::from_str("</a>");
    assert_eq!(r, Err(BuilderError::UnexpectedClose));
}

#[test]
fn empty_input_has_no_element() {
    let r = Element::from_str("");
    assert_eq!(r, Err(BuilderError::NoElement));
    let r2 = Element::from_str("<!--only a comment-->");
    assert_eq!(r2, Err(BuilderError::NoElement));
}

#[test]
fn parser_error_is_passed_through() {
    match Element::from_str("<a b='1' b='2'/>") {
        Err(BuilderError::Parser(e)) => {
            assert_eq!(e.kind, xml::ParserErrorKind::DuplicateAttribute);
        }
        other => panic!("expected a parser error, got {:?}", other),
    }
}

#[test]
fn clone_copies_the_whole_tree() {
    let tree = Element::from_str("<a t='1'><b>x</b><!--c--><![CDATA[y]]><?p?></a>").unwrap();
    let copy = tree.clone();
    assert_eq!(copy, tree);
    let mut copy2 = copy.clone();
    copy2.set_attribute("t".to_owned(), None, "2".to_owned());
    assert_ne!(copy2, tree);
    assert_eq!(copy, tree);
}
