//! The in-memory document tree: element nodes, their attributes and
//! children, and accessors over them.

use vstd::prelude::*;
use crate::attrmap::{opt_ref_view, opt_view, spec_get, spec_index_of, AttrMap};
use crate::prefix_map::PrefixMap;
use crate::stdx::clone_opt_string;

verus! {

/// One node of a document tree.
#[derive(Debug, PartialEq, Eq)]
pub enum Xml {
    /// A nested element.
    ElementNode(Element),
    /// Character data.
    CharacterNode(String),
    /// A CDATA section.
    CDATANode(String),
    /// A comment.
    CommentNode(String),
    /// A processing instruction.
    PINode(String),
}

/// An XML element: name, namespace, attributes, children, and the
/// namespace-prefix bookkeeping used when rendering.
#[derive(Debug, PartialEq, Eq)]
pub struct Element {
    /// The element's local name.
    pub name: String,
    /// The element's resolved namespace, if any.
    pub ns: Option<String>,
    /// The element's attributes, keyed by (local name, namespace option).
    pub attributes: AttrMap,
    /// The element's child nodes, in document order.
    pub children: Vec<Xml>,
    /// The prefixes declared for namespace URIs at this element.
    pub prefixes: PrefixMap,
    /// The namespace that unprefixed names resolve to at this element.
    pub default_ns: Option<String>,
}

impl Element {
    /// Attribute keys are unique.
    pub open spec fn wf(&self) -> bool {
        self.attributes.wf()
    }
}

/// The text contained in the tail of a child list, from position `i` on:
/// character and CDATA data concatenated in document order, elements
/// recursed into, comments and processing instructions skipped.
pub open spec fn children_content(cs: Seq<Xml>, i: int) -> Seq<char>
    decreases cs, cs.len() - i,
{
    if i < 0 || i >= cs.len() {
        Seq::empty()
    } else {
        let head = match cs[i] {
            Xml::ElementNode(e) => children_content(e.children@, 0),
            Xml::CharacterNode(s) => s@,
            Xml::CDATANode(s) => s@,
            Xml::CommentNode(_) => Seq::empty(),
            Xml::PINode(_) => Seq::empty(),
        };
        head + children_content(cs, i + 1)
    }
}

/// The text contained in an element.
pub open spec fn elem_content(e: Element) -> Seq<char> {
    children_content(e.children@, 0)
}

/// The elements among the tail of a child list that carry the given name
/// and namespace, in document order.
pub open spec fn children_named(
    cs: Seq<Xml>,
    i: int,
    name: Seq<char>,
    ns: Option<Seq<char>>,
) -> Seq<Element>
    decreases cs.len() - i,
{
    if i < 0 || i >= cs.len() {
        Seq::empty()
    } else {
        let rest = children_named(cs, i + 1, name, ns);
        match cs[i] {
            Xml::ElementNode(e) => if e.name@ == name && opt_view(e.ns) == ns {
                seq![e] + rest
            } else {
                rest
            },
            _ => rest,
        }
    }
}

/// A filtered view of an element's direct children: those with a given
/// name and namespace, in document order, walked with [`ChildElements::next`].
pub struct ChildElements<'a> {
    elems: Vec<&'a Element>,
    pos: usize,
}

impl<'a> ChildElements<'a> {
    /// The matching elements, in order.
    pub closed spec fn elems_view(&self) -> Seq<Element> {
        self.elems@.map_values(|e: &Element| *e)
    }

    /// How many of them have been handed out already.
    pub closed spec fn pos_view(&self) -> int {
        self.pos as int
    }

    /// The number of matching child elements.
    pub fn len(&self) -> (r: usize)
        ensures
            r == self.elems_view().len(),
    {
        self.elems.len()
    }

    /// The matching child element at a position.
    pub fn get(&self, i: usize) -> (r: Option<&'a Element>)
        ensures
            i < self.elems_view().len() ==> (r matches Some(e) && *e == self.elems_view()[i as int]),
            i >= self.elems_view().len() ==> r is None,
    {
        if i < self.elems.len() {
            Some(self.elems[i])
        } else {
            None
        }
    }

    /// The next matching child element, if any.
    pub fn next(&mut self) -> (r: Option<&'a Element>)
        ensures
            final(self).elems_view() == old(self).elems_view(),
            old(self).pos_view() < old(self).elems_view().len() ==> {
                &&& r matches Some(e) && *e == old(self).elems_view()[old(self).pos_view()]
                &&& final(self).pos_view() == old(self).pos_view() + 1
            },
            old(self).pos_view() >= old(self).elems_view().len() ==> r is None && final(self).pos_view() == old(self).pos_view(),
    {
        if self.pos < self.elems.len() {
            let e = self.elems[self.pos];
            self.pos = self.pos + 1;
            Some(e)
        } else {
            None
        }
    }
}

impl Element {
    /// Creates a new element with the given name, namespace and attributes;
    /// the namespace also becomes the element's default namespace, and the
    /// standard `xml` and `xmlns` prefixes are pre-declared.
    pub fn new(name: String, ns: Option<String>, attrs: Vec<(String, Option<String>, String)>) -> (r:
        Element)
        ensures
            r.name == name,
            r.ns == ns,
            r.default_ns == ns,
            r.children@ =~= Seq::<Xml>::empty(),
            r.prefixes@ =~= Map::<Seq<char>, Seq<char>>::empty().insert(
                "http://www.w3.org/XML/1998/namespace"@,
                "xml"@,
            ).insert("http://www.w3.org/2000/xmlns/"@, "xmlns"@),
            r.attributes@ == inserted_attrs(
                attrs@.map_values(
                    |a: (String, Option<String>, String)| ((a.0@, opt_view(a.1)), a.2@),
                ),
                0,
                Seq::empty(),
            ),
            r.wf(),
    {
        let mut prefixes = PrefixMap::new();
        prefixes.insert("http://www.w3.org/XML/1998/namespace".to_owned(), "xml".to_owned());
        prefixes.insert("http://www.w3.org/2000/xmlns/".to_owned(), "xmlns".to_owned());

        let ghost raw = attrs@.map_values(
            |a: (String, Option<String>, String)| ((a.0@, opt_view(a.1)), a.2@),
        );
        let mut attributes = AttrMap::new();
        let mut i: usize = 0;
        while i < attrs.len()
            invariant
                i <= attrs@.len(),
                raw == attrs@.map_values(
                    |a: (String, Option<String>, String)| ((a.0@, opt_view(a.1)), a.2@),
                ),
                attributes.wf(),
                inserted_attrs(raw, 0, Seq::empty()) == inserted_attrs(
                    raw,
                    i as int,
                    attributes@,
                ),
            decreases attrs@.len() - i,
        {
            let a = &attrs[i];
            proof {
                assert(raw[i as int] == ((a.0@, opt_view(a.1)), a.2@));
            }
            let _ = attributes.insert((a.0.clone(), clone_opt_string(&a.1)), a.2.clone());
            i = i + 1;
        }
        let dns = clone_opt_string(&ns);
        Element { name, ns, default_ns: dns, prefixes, attributes, children: Vec::new() }
    }

    /// Returns the character and CDATA text contained in the element, in
    /// document order.
    pub fn content_str(&self) -> (r: String)
        ensures
            r@ == elem_content(*self),
        decreases *self,
    {
        let mut res = String::new();
        let mut i: usize = 0;
        while i < self.children.len()
            invariant
                i <= self.children@.len(),
                children_content(self.children@, 0) == res@ + children_content(
                    self.children@,
                    i as int,
                ),
            decreases self.children@.len() - i,
        {
            proof {
                assert(decreases_to!(*self => self.children));
                assert(decreases_to!(self.children => self.children@));
                assert(decreases_to!(self.children@ => self.children@[i as int]));
            }
            match &self.children[i] {
                Xml::ElementNode(e) => {
                    proof {
                        assert(self.children@[i as int] == Xml::ElementNode(*e));
                        assert(decreases_to!(self.children@[i as int] => *e));
                    }
                    let s = e.content_str();
                    res.append(s.as_str());
                },
                Xml::CharacterNode(d) => {
                    res.append(d.as_str());
                },
                Xml::CDATANode(d) => {
                    res.append(d.as_str());
                },
                Xml::CommentNode(_) => {},
                Xml::PINode(_) => {},
            }
            i = i + 1;
        }
        proof {
            assert(children_content(self.children@, self.children@.len() as int)
                =~= Seq::<char>::empty());
            assert(res@ + Seq::<char>::empty() =~= res@);
        }
        res
    }

    /// Gets an attribute by name and namespace.
    pub fn get_attribute<'a>(&'a self, name: &str, ns: Option<&str>) -> (r: Option<&'a str>)
        ensures
            match spec_get(self.attributes@, (name@, opt_ref_view(ns))) {
                Some(v) => r matches Some(s) && s@ == v,
                None => r is None,
            },
    {
        match self.attributes.get(name, ns) {
            Some(s) => Some(s.as_str()),
            None => None,
        }
    }

    /// Sets an attribute, handing back the prior value if the key was
    /// already present.
    pub fn set_attribute(&mut self, name: String, ns: Option<String>, value: String) -> (r: Option<
        String,
    >)
        requires
            old(self).wf(),
        ensures
            final(self).wf(),
            final(self).name == old(self).name,
            final(self).ns == old(self).ns,
            final(self).default_ns == old(self).default_ns,
            final(self).prefixes == old(self).prefixes,
            final(self).children == old(self).children,
            ({
                let kk = (name@, opt_view(ns));
                match spec_get(old(self).attributes@, kk) {
                    Some(oldv) => r matches Some(s) && s@ == oldv && final(self).attributes@ == old(
                        self,
                    ).attributes@.update(spec_index_of(old(self).attributes@, kk), (kk, value@)),
                    None => r is None && final(self).attributes@ == old(self).attributes@.push(
                        (kk, value@),
                    ),
                }
            }),
    {
        self.attributes.insert((name, ns), value)
    }

    /// Removes an attribute by name and namespace, handing back its value.
    pub fn remove_attribute(&mut self, name: &str, ns: Option<&str>) -> (r: Option<String>)
        requires
            old(self).wf(),
        ensures
            final(self).wf(),
            final(self).name == old(self).name,
            final(self).ns == old(self).ns,
            final(self).default_ns == old(self).default_ns,
            final(self).prefixes == old(self).prefixes,
            final(self).children == old(self).children,
            ({
                let kk = (name@, opt_ref_view(ns));
                match spec_get(old(self).attributes@, kk) {
                    Some(v) => r matches Some(s) && s@ == v && final(self).attributes@ == old(
                        self,
                    ).attributes@.remove(spec_index_of(old(self).attributes@, kk)),
                    None => r is None && final(self).attributes@ == old(self).attributes@,
                }
            }),
    {
        self.attributes.remove(name, ns)
    }

    /// Gets the first child element with the given name and namespace.
    pub fn get_child<'a>(&'a self, name: &str, ns: Option<&str>) -> (r: Option<&'a Element>)
        ensures
            ({
                let s = children_named(self.children@, 0, name@, opt_ref_view(ns));
                if s.len() > 0 {
                    r matches Some(e) && *e == s[0]
                } else {
                    r is None
                }
            }),
    {
        let ghost nv = name@;
        let ghost nsv = opt_ref_view(ns);
        let mut i: usize = 0;
        while i < self.children.len()
            invariant
                i <= self.children@.len(),
                nv == name@,
                nsv == opt_ref_view(ns),
                children_named(self.children@, 0, nv, nsv) == children_named(
                    self.children@,
                    i as int,
                    nv,
                    nsv,
                ),
            decreases self.children@.len() - i,
        {
            match &self.children[i] {
                Xml::ElementNode(e) => {
                    if crate::stdx::str_eq(e.name.as_str(), name) && crate::attrmap::opt_str_matches(
                        &e.ns,
                        ns,
                    ) {
                        proof {
                            assert(children_named(self.children@, i as int, nv, nsv)
                                == seq![*e] + children_named(self.children@, i + 1, nv, nsv));
                        }
                        return Some(e);
                    }
                },
                _ => {},
            }
            i = i + 1;
        }
        None
    }

    /// Gets all child elements with the given name and namespace, in
    /// document order.
    pub fn get_children<'a>(&'a self, name: &str, ns: Option<&str>) -> (r: ChildElements<'a>)
        ensures
            r.elems_view() == children_named(self.children@, 0, name@, opt_ref_view(ns)),
            r.pos_view() == 0,
    {
        let ghost nv = name@;
        let ghost nsv = opt_ref_view(ns);
        let mut elems: Vec<&Element> = Vec::new();
        let mut i: usize = 0;
        proof {
            assert(elems@.map_values(|e: &Element| *e) =~= Seq::<Element>::empty());
        }
        while i < self.children.len()
            invariant
                i <= self.children@.len(),
                nv == name@,
                nsv == opt_ref_view(ns),
                children_named(self.children@, 0, nv, nsv) == elems@.map_values(|e: &Element| *e)
                    + children_named(self.children@, i as int, nv, nsv),
            decreases self.children@.len() - i,
        {
            match &self.children[i] {
                Xml::ElementNode(e) => {
                    if crate::stdx::str_eq(e.name.as_str(), name) && crate::attrmap::opt_str_matches(
                        &e.ns,
                        ns,
                    ) {
                        let ghost pre = elems@.map_values(|x: &Element| *x);
                        elems.push(e);
                        proof {
                            assert(elems@.map_values(|x: &Element| *x) =~= pre.push(*e));
                            assert(pre + (seq![*e] + children_named(
                                self.children@,
                                i + 1,
                                nv,
                                nsv,
                            )) =~= pre.push(*e) + children_named(self.children@, i + 1, nv, nsv));
                        }
                    }
                },
                _ => {},
            }
            i = i + 1;
        }
        proof {
            assert(children_named(self.children@, self.children@.len() as int, nv, nsv)
                =~= Seq::<Element>::empty());
            assert(elems@.map_values(|e: &Element| *e) + Seq::<Element>::empty() =~= elems@.map_values(
                |e: &Element| *e,
            ));
        }
        ChildElements { elems, pos: 0 }
    }

    /// Appends a child element.
    pub fn tag(&mut self, child: Element)
        ensures
            final(self).children@ == old(self).children@.push(Xml::ElementNode(child)),
            final(self).name == old(self).name,
            final(self).ns == old(self).ns,
            final(self).default_ns == old(self).default_ns,
            final(self).prefixes == old(self).prefixes,
            final(self).attributes == old(self).attributes,
    {
        self.children.push(Xml::ElementNode(child));
    }

    /// Appends a child element, like [`Element::tag`].
    pub fn tag_stay(&mut self, child: Element)
        ensures
            final(self).children@ == old(self).children@.push(Xml::ElementNode(child)),
            final(self).name == old(self).name,
            final(self).ns == old(self).ns,
            final(self).default_ns == old(self).default_ns,
            final(self).prefixes == old(self).prefixes,
            final(self).attributes == old(self).attributes,
    {
        self.children.push(Xml::ElementNode(child));
    }

    /// Appends character data.
    pub fn text(&mut self, text: String)
        ensures
            final(self).children@ == old(self).children@.push(Xml::CharacterNode(text)),
            final(self).name == old(self).name,
            final(self).ns == old(self).ns,
            final(self).default_ns == old(self).default_ns,
            final(self).prefixes == old(self).prefixes,
            final(self).attributes == old(self).attributes,
    {
        self.children.push(Xml::CharacterNode(text));
    }

    /// Appends a CDATA section.
    pub fn cdata(&mut self, text: String)
        ensures
            final(self).children@ == old(self).children@.push(Xml::CDATANode(text)),
            final(self).name == old(self).name,
            final(self).ns == old(self).ns,
            final(self).default_ns == old(self).default_ns,
            final(self).prefixes == old(self).prefixes,
            final(self).attributes == old(self).attributes,
    {
        self.children.push(Xml::CDATANode(text));
    }

    /// Appends a comment.
    pub fn comment(&mut self, text: String)
        ensures
            final(self).children@ == old(self).children@.push(Xml::CommentNode(text)),
            final(self).name == old(self).name,
            final(self).ns == old(self).ns,
            final(self).default_ns == old(self).default_ns,
            final(self).prefixes == old(self).prefixes,
            final(self).attributes == old(self).attributes,
    {
        self.children.push(Xml::CommentNode(text));
    }

    /// Appends a processing instruction.
    pub fn pi(&mut self, text: String)
        ensures
            final(self).children@ == old(self).children@.push(Xml::PINode(text)),
            final(self).name == old(self).name,
            final(self).ns == old(self).ns,
            final(self).default_ns == old(self).default_ns,
            final(self).prefixes == old(self).prefixes,
            final(self).attributes == old(self).attributes,
    {
        self.children.push(Xml::PINode(text));
    }
}

/// The mathematical value of an `Element`: every field by contents.
#[verifier::ext_equal]
pub ghost struct ElemModel {
    pub name: Seq<char>,
    pub ns: Option<Seq<char>>,
    pub attributes: Seq<((Seq<char>, Option<Seq<char>>), Seq<char>)>,
    pub children: Seq<XmlModel>,
    pub prefixes: Map<Seq<char>, Seq<char>>,
    pub default_ns: Option<Seq<char>>,
}

/// The mathematical value of an `Xml` node.
#[verifier::ext_equal]
pub ghost enum XmlModel {
    ElementNode(ElemModel),
    CharacterNode(Seq<char>),
    CDATANode(Seq<char>),
    CommentNode(Seq<char>),
    PINode(Seq<char>),
}

/// The models of the child nodes from position `i` on.
pub open spec fn children_models(cs: Seq<Xml>, i: int) -> Seq<XmlModel>
    decreases cs, cs.len() - i,
{
    if i < 0 || i >= cs.len() {
        Seq::empty()
    } else {
        let head = match cs[i] {
            Xml::ElementNode(e) => XmlModel::ElementNode(
                ElemModel {
                    name: e.name@,
                    ns: opt_view(e.ns),
                    attributes: e.attributes@,
                    children: children_models(e.children@, 0),
                    prefixes: e.prefixes@,
                    default_ns: opt_view(e.default_ns),
                },
            ),
            Xml::CharacterNode(s) => XmlModel::CharacterNode(s@),
            Xml::CDATANode(s) => XmlModel::CDATANode(s@),
            Xml::CommentNode(s) => XmlModel::CommentNode(s@),
            Xml::PINode(s) => XmlModel::PINode(s@),
        };
        seq![head] + children_models(cs, i + 1)
    }
}

/// The model of an element.
pub open spec fn elem_model(e: Element) -> ElemModel {
    ElemModel {
        name: e.name@,
        ns: opt_view(e.ns),
        attributes: e.attributes@,
        children: children_models(e.children@, 0),
        prefixes: e.prefixes@,
        default_ns: opt_view(e.default_ns),
    }
}

/// The model of one node.
pub open spec fn xml_model(x: Xml) -> XmlModel {
    match x {
        Xml::ElementNode(e) => XmlModel::ElementNode(elem_model(e)),
        Xml::CharacterNode(s) => XmlModel::CharacterNode(s@),
        Xml::CDATANode(s) => XmlModel::CDATANode(s@),
        Xml::CommentNode(s) => XmlModel::CommentNode(s@),
        Xml::PINode(s) => XmlModel::PINode(s@),
    }
}

/// Appending a node appends its model.
pub proof fn lemma_children_models_push(cs: Seq<Xml>, x: Xml, i: int)
    requires
        0 <= i <= cs.len(),
    ensures
        children_models(cs.push(x), i) == children_models(cs, i).push(xml_model(x)),
    decreases cs.len() - i,
{
    if i == cs.len() {
        assert(cs.push(x)[i] == x);
        assert(children_models(cs.push(x), i + 1) =~= Seq::<XmlModel>::empty());
        assert(seq![xml_model(x)] + Seq::<XmlModel>::empty() =~= Seq::<
            XmlModel,
        >::empty().push(xml_model(x)));
    } else {
        assert(cs.push(x)[i] == cs[i]);
        lemma_children_models_push(cs, x, i + 1);
        assert(seq![xml_model(cs[i])] + children_models(cs, i + 1).push(xml_model(x))
            =~= (seq![xml_model(cs[i])] + children_models(cs, i + 1)).push(xml_model(x)));
    }
}

impl Clone for Element {
    /// Deep-clones the element; the copy has the same model.
    fn clone(&self) -> (r: Element)
        ensures
            elem_model(r) == elem_model(*self),
        decreases *self,
    {
        let mut children: Vec<Xml> = Vec::new();
        let mut i: usize = 0;
        proof {
            assert(self.children@.take(0) =~= Seq::<Xml>::empty());
            assert(children_models(children@, 0) =~= children_models(self.children@.take(0), 0));
        }
        while i < self.children.len()
            invariant
                i <= self.children@.len(),
                children@.len() == i,
                children_models(children@, 0) == children_models(
                    self.children@.take(i as int),
                    0,
                ),
            decreases self.children@.len() - i,
        {
            let ghost acc0 = children@;
            proof {
                assert(decreases_to!(*self => self.children));
                assert(decreases_to!(self.children => self.children@));
                assert(decreases_to!(self.children@ => self.children@[i as int]));
            }
            let copy: Xml = match &self.children[i] {
                Xml::ElementNode(e) => {
                    proof {
                        assert(self.children@[i as int] == Xml::ElementNode(*e));
                        assert(decreases_to!(self.children@[i as int] => *e));
                    }
                    Xml::ElementNode(e.clone())
                },
                Xml::CharacterNode(s) => Xml::CharacterNode(s.clone()),
                Xml::CDATANode(s) => Xml::CDATANode(s.clone()),
                Xml::CommentNode(s) => Xml::CommentNode(s.clone()),
                Xml::PINode(s) => Xml::PINode(s.clone()),
            };
            proof {
                assert(xml_model(copy) == xml_model(self.children@[i as int]));
            }
            children.push(copy);
            proof {
                lemma_children_models_push(acc0, copy, 0);
                lemma_children_models_push(
                    self.children@.take(i as int),
                    self.children@[i as int],
                    0,
                );
                assert(self.children@.take(i + 1) =~= self.children@.take(i as int).push(
                    self.children@[i as int],
                ));
            }
            i = i + 1;
        }
        proof {
            assert(self.children@.take(self.children@.len() as int) =~= self.children@);
        }
        Element {
            name: self.name.clone(),
            ns: clone_opt_string(&self.ns),
            attributes: self.attributes.clone(),
            children,
            prefixes: self.prefixes.clone(),
            default_ns: clone_opt_string(&self.default_ns),
        }
    }
}

impl Clone for Xml {
    /// Deep-clones the node; the copy has the same model.
    fn clone(&self) -> (r: Xml)
        ensures
            xml_model(r) == xml_model(*self),
    {
        match self {
            Xml::ElementNode(e) => Xml::ElementNode(e.clone()),
            Xml::CharacterNode(s) => Xml::CharacterNode(s.clone()),
            Xml::CDATANode(s) => Xml::CDATANode(s.clone()),
            Xml::CommentNode(s) => Xml::CommentNode(s.clone()),
            Xml::PINode(s) => Xml::PINode(s.clone()),
        }
    }
}

/// The attribute list built by inserting the tail of `raw`, from `i` on,
/// into `acc`: a present key keeps its position and takes the new value.
pub open spec fn inserted_attrs(
    raw: Seq<((Seq<char>, Option<Seq<char>>), Seq<char>)>,
    i: int,
    acc: Seq<((Seq<char>, Option<Seq<char>>), Seq<char>)>,
) -> Seq<((Seq<char>, Option<Seq<char>>), Seq<char>)>
    decreases raw.len() - i,
{
    if i < 0 || i >= raw.len() {
        acc
    } else {
        let key = raw[i].0;
        let acc2 = if spec_get(acc, key) is Some {
            acc.update(spec_index_of(acc, key), (key, raw[i].1))
        } else {
            acc.push((key, raw[i].1))
        };
        inserted_attrs(raw, i + 1, acc2)
    }
}

} // verus!
