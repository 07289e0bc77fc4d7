//! The tree builder: consumes lexical events in order, maintains the stack
//! of in-progress elements, and yields the document's single root element.

use vstd::prelude::*;
use vstd::string::StringSliceAdditionalSpecFns;
use crate::attrmap::{opt_view, spec_get};
use crate::element::{
    children_models, elem_model, lemma_children_models_push, xml_model, ElemModel, Element, Xml,
    XmlModel,
};
use crate::parser::{Event, EventModel, Parser, ParserError, ParserModel, StartTag};
use crate::prefix_map::PrefixMap;
use crate::stdx::{clone_opt_string, opt_str_eq, str_eq};

verus! {

/// The structural errors of a build, and parser errors passed through.
#[derive(Debug, Clone, PartialEq, Eq)]
pub enum BuilderError {
    /// The underlying parser failed.
    Parser(ParserError),
    /// A close tag did not match the element currently open.
    MismatchedTag,
    /// A close arrived while no element was open.
    UnexpectedClose,
    /// Content stood after the document's single root element had closed.
    ExtraContent,
    /// The input held no element at all.
    NoElement,
}

/// The text describing a build error.
pub open spec fn builder_error_message(e: BuilderError) -> Seq<char> {
    match e {
        BuilderError::Parser(pe) => crate::parser::parser_error_message(pe),
        BuilderError::MismatchedTag => "Close tag does not match the open element"@,
        BuilderError::UnexpectedClose => "Close tag with no open element"@,
        BuilderError::ExtraContent => "Content after the root element closed"@,
        BuilderError::NoElement => "No element found"@,
    }
}

impl BuilderError {
    /// The text describing this error.
    pub fn message(&self) -> (r: String)
        ensures
            r@ == builder_error_message(*self),
    {
        match self {
            BuilderError::Parser(pe) => pe.message(),
            BuilderError::MismatchedTag => {
                "Close tag does not match the open element".to_owned()
            },
            BuilderError::UnexpectedClose => "Close tag with no open element".to_owned(),
            BuilderError::ExtraContent => "Content after the root element closed".to_owned(),
            BuilderError::NoElement => "No element found".to_owned(),
        }
    }
}

/// The prefixes every built element starts from: the well-known `xml` and
/// `xmlns` ones.
pub open spec fn base_prefixes() -> Map<Seq<char>, Seq<char>> {
    Map::<Seq<char>, Seq<char>>::empty().insert(
        "http://www.w3.org/XML/1998/namespace"@,
        "xml"@,
    ).insert("http://www.w3.org/2000/xmlns/"@, "xmlns"@)
}

/// The prefix declarations a tag introduces: its attributes in the
/// namespace-declaration namespace, mapping each declared URI to its
/// prefix, folded over `acc` in stored order.
pub open spec fn decl_map(
    attrs: Seq<((Seq<char>, Option<Seq<char>>), Seq<char>)>,
    i: int,
    acc: Map<Seq<char>, Seq<char>>,
) -> Map<Seq<char>, Seq<char>>
    decreases attrs.len() - i,
{
    if i < 0 || i >= attrs.len() {
        acc
    } else {
        let acc2 = if attrs[i].0.1 == Some("http://www.w3.org/2000/xmlns/"@) {
            acc.insert(attrs[i].1, attrs[i].0.0)
        } else {
            acc
        };
        decl_map(attrs, i + 1, acc2)
    }
}

/// The default namespace a tag's own `xmlns` attribute sets, if any;
/// otherwise the inherited one.
pub open spec fn started_default_ns(
    attrs: Seq<((Seq<char>, Option<Seq<char>>), Seq<char>)>,
    inherited: Option<Seq<char>>,
) -> Option<Seq<char>> {
    match spec_get(attrs, ("xmlns"@, None)) {
        Some(v) => if v.len() == 0 {
            None
        } else {
            Some(v)
        },
        None => inherited,
    }
}

/// The element a start tag opens, under the inherited default namespace.
pub open spec fn started_elem(e: Element, st: StartTag, inherited: Option<Seq<char>>) -> bool {
    &&& e.name == st.name
    &&& e.ns == st.ns
    &&& e.attributes == st.attributes
    &&& e.children@.len() == 0
    &&& e.prefixes@ == decl_map(st.attributes@, 0, base_prefixes())
    &&& opt_view(e.default_ns) == started_default_ns(st.attributes@, inherited)
}

/// The default namespace the next opened element inherits from the stack.
pub open spec fn inherited_default(stack: Seq<Element>) -> Option<Seq<char>> {
    if stack.len() > 0 {
        opt_view(stack.last().default_ns)
    } else {
        None
    }
}

/// Builds an element tree from a sequence of parser events.
pub struct ElementBuilder {
    stack: Vec<Element>,
    finished: bool,
}

impl ElementBuilder {
    /// The in-progress elements, outermost first.
    pub closed spec fn stack_view(&self) -> Seq<Element> {
        self.stack@
    }

    /// Whether the document's root element has been completed.
    pub closed spec fn finished_view(&self) -> bool {
        self.finished
    }

    /// A builder with nothing open and nothing completed.
    pub fn new() -> (r: ElementBuilder)
        ensures
            r.stack_view() =~= Seq::<Element>::empty(),
            !r.finished_view(),
    {
        ElementBuilder { stack: Vec::new(), finished: false }
    }

    // Appends a node to the element currently open, discards it before the
    // root, and rejects it after the root has closed.
    fn append_node(&mut self, x: Xml) -> (r: Option<Result<Element, BuilderError>>)
        ensures
            content_outcome(*old(self), x, *final(self), r),
    {
        if self.stack.len() > 0 {
            let n = self.stack.len();
            let mut top = self.stack.remove(n - 1);
            top.children.push(x);
            self.stack.push(top);
            proof {
                assert(self.stack@ =~= old(self).stack_view().update(
                    old(self).stack_view().len() - 1,
                    self.stack@.last(),
                ));
            }
            None
        } else if self.finished {
            Some(Err(BuilderError::ExtraContent))
        } else {
            None
        }
    }

    /// Feeds one parser event: `None` while the build goes on, the root
    /// element when it completes, and the first error otherwise.
    pub fn handle_event(&mut self, e: Result<Event, ParserError>) -> (r: Option<
        Result<Element, BuilderError>,
    >)
        ensures
            handle_outcome(*old(self), e, *final(self), r),
    {
        let ev = match e {
            Ok(ev) => ev,
            Err(pe) => {
                return Some(Err(BuilderError::Parser(pe)));
            },
        };
        match ev {
            Event::PI(s) => self.append_node(Xml::PINode(s)),
            Event::Characters(s) => self.append_node(Xml::CharacterNode(s)),
            Event::CDATA(s) => self.append_node(Xml::CDATANode(s)),
            Event::Comment(s) => self.append_node(Xml::CommentNode(s)),
            Event::ElementStart(st) => {
                if self.finished {
                    return Some(Err(BuilderError::ExtraContent));
                }
                let ghost inherited = inherited_default(self.stack@);
                let default_ns: Option<String> = match st.attributes.get("xmlns", None) {
                    Some(v) => {
                        if v.as_str().is_empty() {
                            None
                        } else {
                            Some(v.clone())
                        }
                    },
                    None => {
                        if self.stack.len() > 0 {
                            let n = self.stack.len();
                            clone_opt_string(&self.stack[n - 1].default_ns)
                        } else {
                            None
                        }
                    },
                };
                let mut prefixes = PrefixMap::new();
                prefixes.insert(
                    "http://www.w3.org/XML/1998/namespace".to_owned(),
                    "xml".to_owned(),
                );
                prefixes.insert("http://www.w3.org/2000/xmlns/".to_owned(), "xmlns".to_owned());
                proof {
                    assert(prefixes@ =~= base_prefixes());
                }
                let ghost av = st.attributes@;
                let mut i: usize = 0;
                while i < st.attributes.len()
                    invariant
                        i <= av.len(),
                        av == st.attributes@,
                        decl_map(av, 0, base_prefixes()) == decl_map(av, i as int, prefixes@),
                    decreases av.len() - i,
                {
                    let a = st.attributes.entry_at(i);
                    let is_decl = crate::attrmap::opt_str_matches(
                        &a.0.1,
                        Some("http://www.w3.org/2000/xmlns/"),
                    );
                    if is_decl {
                        prefixes.insert(a.1.clone(), a.0.0.clone());
                    }
                    i = i + 1;
                }
                let elem = Element {
                    name: st.name,
                    ns: st.ns,
                    attributes: st.attributes,
                    children: Vec::new(),
                    prefixes,
                    default_ns,
                };
                self.stack.push(elem);
                None
            },
            Event::ElementEnd(et) => {
                if self.stack.len() == 0 {
                    if self.finished {
                        return Some(Err(BuilderError::ExtraContent));
                    }
                    return Some(Err(BuilderError::UnexpectedClose));
                }
                let n = self.stack.len();
                let popped = self.stack.remove(n - 1);
                if !(str_eq(popped.name.as_str(), et.name.as_str()) && opt_str_eq(
                    &popped.ns,
                    &et.ns,
                )) {
                    return Some(Err(BuilderError::MismatchedTag));
                }
                if self.stack.len() == 0 {
                    self.finished = true;
                    return Some(Ok(popped));
                }
                let m = self.stack.len();
                let mut parent = self.stack.remove(m - 1);
                parent.children.push(Xml::ElementNode(popped));
                self.stack.push(parent);
                proof {
                    assert(self.stack@ =~= old(self).stack_view().drop_last().update(
                        old(self).stack_view().len() - 2,
                        self.stack@.last(),
                    ));
                }
                None
            },
        }
    }
}

/// The mathematical state of an `ElementBuilder`.
#[verifier::ext_equal]
pub ghost struct BuilderModel {
    pub stack: Seq<ElemModel>,
    pub finished: bool,
}

/// The model of a builder.
pub open spec fn builder_model(b: ElementBuilder) -> BuilderModel {
    BuilderModel {
        stack: b.stack_view().map_values(|e: Element| elem_model(e)),
        finished: b.finished_view(),
    }
}

/// The model of an event fed to the builder.
pub open spec fn event_result_model(e: Result<Event, ParserError>) -> Result<
    EventModel,
    ParserError,
> {
    match e {
        Ok(ev) => Ok(ev@),
        Err(pe) => Err(pe),
    }
}

/// Feeding a non-structural node, at the model level.
pub open spec fn build_content(b: BuilderModel, x: XmlModel) -> (BuilderModel, Option<
    Result<ElemModel, BuilderError>,
>) {
    if b.stack.len() > 0 {
        let last = b.stack.last();
        let last2 = ElemModel { children: last.children.push(x), ..last };
        (BuilderModel { stack: b.stack.update(b.stack.len() - 1, last2), ..b }, None)
    } else if b.finished {
        (b, Some(Err(BuilderError::ExtraContent)))
    } else {
        (b, None)
    }
}

/// Feeding one event, at the model level: the function `handle_event`
/// computes.
pub open spec fn build_step(b: BuilderModel, e: Result<EventModel, ParserError>) -> (BuilderModel,
    Option<Result<ElemModel, BuilderError>>,
) {
    match e {
        Err(pe) => (b, Some(Err(BuilderError::Parser(pe)))),
        Ok(ev) => match ev {
            EventModel::PI(s) => build_content(b, XmlModel::PINode(s)),
            EventModel::Characters(s) => build_content(b, XmlModel::CharacterNode(s)),
            EventModel::CDATA(s) => build_content(b, XmlModel::CDATANode(s)),
            EventModel::Comment(s) => build_content(b, XmlModel::CommentNode(s)),
            EventModel::ElementStart(st) => if b.finished {
                (b, Some(Err(BuilderError::ExtraContent)))
            } else {
                let inherited = if b.stack.len() > 0 {
                    b.stack.last().default_ns
                } else {
                    None
                };
                let opened = ElemModel {
                    name: st.name,
                    ns: st.ns,
                    attributes: st.attributes,
                    children: Seq::empty(),
                    prefixes: decl_map(st.attributes, 0, base_prefixes()),
                    default_ns: started_default_ns(st.attributes, inherited),
                };
                (BuilderModel { stack: b.stack.push(opened), ..b }, None)
            },
            EventModel::ElementEnd(et) => if b.stack.len() == 0 {
                (
                    b,
                    Some(
                        Err(
                            if b.finished {
                                BuilderError::ExtraContent
                            } else {
                                BuilderError::UnexpectedClose
                            },
                        ),
                    ),
                )
            } else {
                let popped = b.stack.last();
                let rest = b.stack.drop_last();
                if popped.name != et.name || popped.ns != et.ns {
                    (BuilderModel { stack: rest, ..b }, Some(Err(BuilderError::MismatchedTag)))
                } else if rest.len() == 0 {
                    (BuilderModel { stack: rest, finished: true }, Some(Ok(popped)))
                } else {
                    let parent = rest.last();
                    let parent2 = ElemModel {
                        children: parent.children.push(XmlModel::ElementNode(popped)),
                        ..parent
                    };
                    (BuilderModel { stack: rest.update(rest.len() - 1, parent2), ..b }, None)
                }
            },
        },
    }
}

/// `post_e` is `pre_e` with one more child node appended.
pub open spec fn with_child(pre_e: Element, post_e: Element, x: Xml) -> bool {
    &&& post_e.name == pre_e.name
    &&& post_e.ns == pre_e.ns
    &&& post_e.attributes == pre_e.attributes
    &&& post_e.prefixes == pre_e.prefixes
    &&& post_e.default_ns == pre_e.default_ns
    &&& post_e.children@ == pre_e.children@.push(x)
}

/// What feeding a non-structural node does: appended inside an open
/// element, discarded before the root, rejected after it.
pub open spec fn content_outcome(
    pre: ElementBuilder,
    x: Xml,
    post: ElementBuilder,
    r: Option<Result<Element, BuilderError>>,
) -> bool {
    &&& post.finished_view() == pre.finished_view()
    &&& if pre.stack_view().len() > 0 {
        &&& r is None
        &&& post.stack_view().len() == pre.stack_view().len()
        &&& with_child(pre.stack_view().last(), post.stack_view().last(), x)
        &&& forall|t: int|
            0 <= t < pre.stack_view().len() - 1 ==> post.stack_view()[t] == pre.stack_view()[t]
    } else if pre.finished_view() {
        r == Some(Err::<Element, BuilderError>(BuilderError::ExtraContent)) && post.stack_view()
            == pre.stack_view()
    } else {
        r is None && post.stack_view() == pre.stack_view()
    }
}

/// What feeding one event does to the builder.
pub open spec fn handle_outcome(
    pre: ElementBuilder,
    e: Result<Event, ParserError>,
    post: ElementBuilder,
    r: Option<Result<Element, BuilderError>>,
) -> bool {
    match e {
        Err(pe) => r == Some(Err::<Element, BuilderError>(BuilderError::Parser(pe))) && post
            == pre,
        Ok(ev) => match ev {
            Event::PI(s) => content_outcome(pre, Xml::PINode(s), post, r),
            Event::Characters(s) => content_outcome(pre, Xml::CharacterNode(s), post, r),
            Event::CDATA(s) => content_outcome(pre, Xml::CDATANode(s), post, r),
            Event::Comment(s) => content_outcome(pre, Xml::CommentNode(s), post, r),
            Event::ElementStart(st) => if pre.finished_view() {
                r == Some(Err::<Element, BuilderError>(BuilderError::ExtraContent)) && post
                    == pre
            } else {
                &&& r is None
                &&& post.finished_view() == pre.finished_view()
                &&& post.stack_view().len() == pre.stack_view().len() + 1
                &&& forall|t: int|
                    0 <= t < pre.stack_view().len() ==> post.stack_view()[t]
                        == pre.stack_view()[t]
                &&& started_elem(
                    post.stack_view().last(),
                    st,
                    inherited_default(pre.stack_view()),
                )
            },
            Event::ElementEnd(et) => if pre.stack_view().len() == 0 {
                post == pre && r == Some(
                    Err::<Element, BuilderError>(
                        if pre.finished_view() {
                            BuilderError::ExtraContent
                        } else {
                            BuilderError::UnexpectedClose
                        },
                    ),
                )
            } else {
                let popped = pre.stack_view().last();
                if popped.name@ != et.name@ || opt_view(popped.ns) != opt_view(et.ns) {
                    &&& r == Some(Err::<Element, BuilderError>(BuilderError::MismatchedTag))
                    &&& post.stack_view() == pre.stack_view().drop_last()
                    &&& post.finished_view() == pre.finished_view()
                } else if pre.stack_view().len() == 1 {
                    &&& r == Some(Ok::<Element, BuilderError>(popped))
                    &&& post.stack_view().len() == 0
                    &&& post.finished_view()
                } else {
                    &&& r is None
                    &&& post.finished_view() == pre.finished_view()
                    &&& post.stack_view().len() == pre.stack_view().len() - 1
                    &&& with_child(
                        pre.stack_view()[pre.stack_view().len() - 2],
                        post.stack_view().last(),
                        Xml::ElementNode(popped),
                    )
                    &&& forall|t: int|
                        0 <= t < pre.stack_view().len() - 2 ==> post.stack_view()[t]
                            == pre.stack_view()[t]
                }
            },
        },
    }
}

/// Appending a child appends its model.
proof fn lemma_with_child_model(a: Element, b: Element, x: Xml)
    requires
        with_child(a, b, x),
    ensures
        elem_model(b) == (ElemModel {
            children: elem_model(a).children.push(xml_model(x)),
            ..elem_model(a)
        }),
{
    lemma_children_models_push(a.children@, x, 0);
}

/// `content_outcome` computes `build_content` at the model level.
proof fn lemma_content_corresponds(
    pre: ElementBuilder,
    x: Xml,
    post: ElementBuilder,
    r: Option<Result<Element, BuilderError>>,
)
    requires
        content_outcome(pre, x, post, r),
    ensures
        ({
            let bs = build_content(builder_model(pre), xml_model(x));
            &&& (r is None ==> bs.1 is None && builder_model(post) == bs.0)
            &&& (r matches Some(Ok(el)) ==> bs.1 == Some(
                Ok::<ElemModel, BuilderError>(elem_model(el)),
            ))
            &&& (r matches Some(Err(be)) ==> bs.1 == Some(Err::<ElemModel, BuilderError>(be)))
        }),
{
    let bm = builder_model(pre);
    if pre.stack_view().len() > 0 {
        lemma_with_child_model(pre.stack_view().last(), post.stack_view().last(), x);
        assert(bm.stack.last() == elem_model(pre.stack_view().last()));
        let last2 = ElemModel {
            children: bm.stack.last().children.push(xml_model(x)),
            ..bm.stack.last()
        };
        assert(builder_model(post).stack =~= bm.stack.update(bm.stack.len() - 1, last2));
        assert(builder_model(post) == build_content(bm, xml_model(x)).0);
    } else if !pre.finished_view() {
        assert(builder_model(post).stack =~= bm.stack);
        assert(builder_model(post) == bm);
    }
}

/// `handle_outcome` computes `build_step` at the model level: the builder
/// is a pure reducer over events.
proof fn lemma_handle_corresponds(
    pre: ElementBuilder,
    e: Result<Event, ParserError>,
    post: ElementBuilder,
    r: Option<Result<Element, BuilderError>>,
)
    requires
        handle_outcome(pre, e, post, r),
    ensures
        ({
            let bs = build_step(builder_model(pre), event_result_model(e));
            &&& (r is None ==> bs.1 is None && builder_model(post) == bs.0)
            &&& (r matches Some(Ok(el)) ==> bs.1 == Some(
                Ok::<ElemModel, BuilderError>(elem_model(el)),
            ))
            &&& (r matches Some(Err(be)) ==> bs.1 == Some(Err::<ElemModel, BuilderError>(be)))
        }),
{
    let bm = builder_model(pre);
    match e {
        Err(_) => {},
        Ok(ev) => match ev {
            Event::PI(s) => {
                lemma_content_corresponds(pre, Xml::PINode(s), post, r);
            },
            Event::Characters(s) => {
                lemma_content_corresponds(pre, Xml::CharacterNode(s), post, r);
            },
            Event::CDATA(s) => {
                lemma_content_corresponds(pre, Xml::CDATANode(s), post, r);
            },
            Event::Comment(s) => {
                lemma_content_corresponds(pre, Xml::CommentNode(s), post, r);
            },
            Event::ElementStart(st) => {
                if !pre.finished_view() {
                    let stm = st@;
                    if pre.stack_view().len() > 0 {
                        assert(bm.stack.last() == elem_model(pre.stack_view().last()));
                    }
                    let inherited = if bm.stack.len() > 0 {
                        bm.stack.last().default_ns
                    } else {
                        None
                    };
                    assert(inherited == inherited_default(pre.stack_view()));
                    let le = post.stack_view().last();
                    assert(children_models(le.children@, 0) == Seq::<XmlModel>::empty());
                    assert(elem_model(le) == (ElemModel {
                        name: stm.name,
                        ns: stm.ns,
                        attributes: stm.attributes,
                        children: Seq::empty(),
                        prefixes: decl_map(stm.attributes, 0, base_prefixes()),
                        default_ns: started_default_ns(stm.attributes, inherited),
                    }));
                    assert(builder_model(post).stack =~= bm.stack.push(elem_model(le)));
                    assert(builder_model(post) == build_step(bm, event_result_model(e)).0);
                }
            },
            Event::ElementEnd(et) => {
                if pre.stack_view().len() > 0 {
                    let popped = pre.stack_view().last();
                    assert(bm.stack.last() == elem_model(popped));
                    if popped.name@ != et.name@ || opt_view(popped.ns) != opt_view(et.ns) {
                        assert(builder_model(post).stack =~= bm.stack.drop_last());
                    } else if pre.stack_view().len() == 1 {
                    } else {
                        let parent = pre.stack_view()[pre.stack_view().len() - 2];
                        lemma_with_child_model(
                            parent,
                            post.stack_view().last(),
                            Xml::ElementNode(popped),
                        );
                        assert(bm.stack.drop_last().last() == elem_model(parent));
                        let parent2 = ElemModel {
                            children: elem_model(parent).children.push(
                                XmlModel::ElementNode(elem_model(popped)),
                            ),
                            ..elem_model(parent)
                        };
                        assert(builder_model(post).stack =~= bm.stack.drop_last().update(
                            bm.stack.len() - 2,
                            parent2,
                        ));
                        assert(builder_model(post) == build_step(bm, event_result_model(e)).0);
                    }
                }
            },
        },
    }
}

/// Folding the builder over the events pulled from a parser state: the
/// root element's model when the build completes, else the first error;
/// `NoElement` when the input runs out first.
pub open spec fn spec_build(m: ParserModel, b: BuilderModel) -> Result<ElemModel, BuilderError>
    decreases m.input.len() - m.pos
        when 0 <= m.pos <= m.input.len() via spec_build_dec
{
    let pr = crate::parser::spec_pull(m);
    match pr.1 {
        None => Err(BuilderError::NoElement),
        Some(ev) => {
            let br = build_step(b, ev);
            match br.1 {
                Some(res) => res,
                None => spec_build(pr.0, br.0),
            }
        },
    }
}

#[via_fn]
proof fn spec_build_dec(m: ParserModel, b: BuilderModel) {
    crate::parser::lemma_pull_progress(m);
}

/// What parsing a whole byte input yields: tokenize from the initial
/// parser state and fold the builder from its initial state.
pub open spec fn spec_from_str(input: Seq<u8>) -> Result<ElemModel, BuilderError> {
    spec_build(
        crate::parser::initial_model(input),
        BuilderModel { stack: Seq::empty(), finished: false },
    )
}

impl Element {
    /// Parses a complete document held in a string into its single root
    /// element. Input at or above `0xFFFF_FFFE` bytes is refused outright
    /// with `NoElement`: the tokenizer's line and column counters are
    /// 32-bit.
    pub fn from_str(data: &str) -> (r: Result<Element, BuilderError>)
        ensures
            data.spec_bytes().len() >= 0xFFFF_FFFE ==> r == Err::<Element, BuilderError>(
                BuilderError::NoElement,
            ),
            data.spec_bytes().len() < 0xFFFF_FFFE ==> match spec_from_str(data.spec_bytes()) {
                Ok(em) => r matches Ok(e) && elem_model(e) == em && e.wf(),
                Err(be) => r == Err::<Element, BuilderError>(be),
            },
    {
        let bytes = data.as_bytes_vec();
        if bytes.len() >= 0xFFFF_FFFEusize {
            return Err(BuilderError::NoElement);
        }
        let ghost input0 = data.spec_bytes();
        let mut p = Parser::new(bytes);
        let mut b = ElementBuilder::new();
        proof {
            assert(builder_model(b).stack =~= Seq::<ElemModel>::empty());
            assert(builder_model(b) == (BuilderModel { stack: Seq::empty(), finished: false }));
        }
        loop
            invariant
                crate::parser::parser_inv(p@),
                input0 == data.spec_bytes(),
                input0.len() < 0xFFFF_FFFE,
                spec_build(p@, builder_model(b)) == spec_from_str(input0),
                forall|t: int| 0 <= t < b.stack_view().len() ==> (#[trigger] b.stack_view()[t]).wf(),
            decreases p@.input.len() - p@.pos,
        {
            let ghost mb = p@;
            let ghost bm0 = builder_model(b);
            let ghost b0 = b;
            proof {
                crate::parser::lemma_pull_progress(mb);
                crate::parser::lemma_pull_start_unique(mb);
            }
            match p.next() {
                None => {
                    proof {
                        assert(spec_build(mb, bm0) == Err::<ElemModel, BuilderError>(
                            BuilderError::NoElement,
                        ));
                    }
                    return Err(BuilderError::NoElement);
                },
                Some(ev) => {
                    let ghost gem = event_result_model(ev);
                    proof {
                        assert(crate::parser::spec_pull(mb).1 == Some(gem));
                    }
                    let res = b.handle_event(ev);
                    proof {
                        lemma_handle_corresponds(b0, ev, b, res);
                    }
                    match res {
                        Some(res2) => {
                            proof {
                                assert(spec_from_str(input0) == (match build_step(bm0, gem).1 {
                                    Some(x) => x,
                                    None => spec_build(crate::parser::spec_pull(mb).0, build_step(
                                        bm0,
                                        gem,
                                    ).0),
                                }));
                            }
                            return res2;
                        },
                        None => {},
                    }
                },
            }
        }
    }
}

} // verus!
