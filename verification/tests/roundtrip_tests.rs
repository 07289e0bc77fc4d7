use xml::Element;

fn roundtrips(text: &str) {
    let tree = Element::from_str(text).unwrap();
    let rendered = tree.render().unwrap();
    let reparsed = Element::from_str(&rendered).unwrap();
    assert_eq!(tree, reparsed);
}

#[test]
fn render_plain_tree() {
    let tree = Element::from_str("<a><b/><c/><b/></a>").unwrap();
    assert_eq!(tree.render().unwrap(), "<a><b/><c/><b/></a>".to_owned());
}

#[test]
fn render_escapes_text_and_attributes() {
    let tree = Element::from_str("<a t='x&amp;y'>a &lt; b</a>").unwrap();
    assert_eq!(
        tree.render().unwrap(),
        "<a t='x&amp;y'>a &lt; b</a>".to_owned(),
    );
}

#[test]
fn render_prefixed_namespace() {
    let tree = Element::from_str("<foo:a xmlns:foo='urn:foo'><foo:b/></foo:a>").unwrap();
    assert_eq!(
        tree.render().unwrap(),
        "<foo:a xmlns:foo='urn:foo'><foo:b/></foo:a>".to_owned(),
    );
}

#[test]
fn render_default_namespace() {
    let tree = Element::from_str("<a xmlns='urn:x'><b/></a>").unwrap();
    assert_eq!(tree.render().unwrap(), "<a xmlns='urn:x'><b/></a>".to_owned());
}

#[test]
fn parse_render_parse_is_identity() {
    roundtrips("<a><b/><c/><b/></a>");
    roundtrips("<a t='x&amp;y'>a &lt; b<![CDATA[raw <stuff>]]><!--note--><?pi data?></a>");
    roundtrips("<foo:a xmlns:foo='urn:foo'><foo:b/></foo:a>");
    roundtrips("<a xmlns='urn:x'><b w='1'/></a>");
    roundtrips("<root>text<mid>inner</mid>tail</root>");
}

#[test]
fn rendered_output_is_well_formed() {
    // Rendering a parsed tree yields text that parses again.
    let tree = Element::from_str("<a t=\"two\"><b inner='&lt;'/></a>").unwrap();
    let rendered = tree.render().unwrap();
    assert!(Element::from_str(&rendered).is_ok());
    // Attribute values come out single-quoted.
    assert_eq!(rendered, "<a t='two'><b inner='&lt;'/></a>".to_owned());
}

#[test]
fn built_tree_renders() {
    let mut root = Element::new("r".to_owned(), None, vec![]);
    root.text("x&y".to_owned());
    root.tag(Element::new("c".to_owned(), None, vec![]));
    assert_eq!(root.render().unwrap(), "<r>x&amp;y<c/></r>".to_owned());
}
