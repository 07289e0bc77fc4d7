use xml::{NsStack, Resolution};

#[test]
fn resolve_walks_frames_innermost_first() {
    let mut ns = NsStack::new();
    ns.push_frame();
    ns.bind("p".to_owned(), "urn:outer".to_owned());
    ns.push_frame();
    assert_eq!(ns.resolve("p"), Resolution::Namespace("urn:outer".to_owned()));
    ns.bind("p".to_owned(), "urn:inner".to_owned());
    assert_eq!(ns.resolve("p"), Resolution::Namespace("urn:inner".to_owned()));
    ns.pop_frame();
    assert_eq!(ns.resolve("p"), Resolution::Namespace("urn:outer".to_owned()));
}

#[test]
fn unseen_prefix_is_missing_and_empty_uri_unbinds() {
    let mut ns = NsStack::new();
    ns.push_frame();
    assert_eq!(ns.resolve("q"), Resolution::Missing);
    ns.bind("q".to_owned(), "urn:q".to_owned());
    ns.push_frame();
    ns.bind("q".to_owned(), "".to_owned());
    assert_eq!(ns.resolve("q"), Resolution::NoNamespace);
    ns.pop_frame();
    assert_eq!(ns.resolve("q"), Resolution::Namespace("urn:q".to_owned()));
}

#[test]
fn frames_track_tag_nesting() {
    let mut ns = NsStack::new();
    assert_eq!(ns.depth(), 0);
    ns.push_frame();
    ns.push_frame();
    assert_eq!(ns.depth(), 2);
    ns.pop_frame();
    assert_eq!(ns.depth(), 1);
    ns.pop_frame();
    ns.pop_frame();
    assert_eq!(ns.depth(), 0);
}
