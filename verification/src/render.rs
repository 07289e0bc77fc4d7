//! The serializer: renders an element tree back to namespace-correct XML
//! text, re-deriving prefixes and default-namespace declarations.

use vstd::prelude::*;
use crate::attrmap::opt_view;
use crate::codec::{escape, spec_escape};
use crate::element::{Element, Xml};
use crate::prefix_map::PrefixMap;
use crate::stdx::{opt_str_eq, str_eq};

verus! {

/// Rendering failed: an element or attribute lies in a namespace for which
/// no prefix is declared in scope.
#[derive(Debug, Clone, Copy, PartialEq, Eq)]
pub enum RenderError {
    UnboundPrefix,
}

impl RenderError {
    /// The text describing this error.
    pub fn message(&self) -> (r: &'static str)
        ensures
            r@ == "No namespace prefix bound"@,
    {
        "No namespace prefix bound"
    }
}

/// The key under which an element's namespace is looked up among the
/// prefix declarations: the URI, or the empty string for no namespace.
pub open spec fn ns_key(ns: Option<Seq<char>>) -> Seq<char> {
    match ns {
        Some(u) => u,
        None => ""@,
    }
}

/// The tag-name token: prefixed when the element's namespace differs from
/// its default namespace, bare otherwise; `None` when the needed prefix is
/// not declared.
pub open spec fn name_token(e: Element, prefixes: Map<Seq<char>, Seq<char>>) -> Option<Seq<char>> {
    if opt_view(e.ns) != opt_view(e.default_ns) {
        if prefixes.contains_key(ns_key(opt_view(e.ns))) {
            Some(prefixes[ns_key(opt_view(e.ns))] + ":"@ + e.name@)
        } else {
            None
        }
    } else {
        Some(e.name@)
    }
}

/// Whether the element itself carries an attribute whose local name is
/// `xmlns` (in which case no default-namespace declaration is derived).
pub open spec fn has_xmlns_attr(attrs: Seq<((Seq<char>, Option<Seq<char>>), Seq<char>)>) -> bool {
    exists|i: int| 0 <= i < attrs.len() && (#[trigger] attrs[i]).0.0 == "xmlns"@
}

/// The derived default-namespace declaration, if one is needed: at the
/// root when the default namespace is set, below it when it differs from
/// the parent's.
pub open spec fn default_decl(e: Element, parent_default: Option<Option<Seq<char>>>) -> Seq<char> {
    if has_xmlns_attr(e.attributes@) {
        ""@
    } else {
        match parent_default {
            None => match opt_view(e.default_ns) {
                Some(u) => " xmlns='"@ + u + "'"@,
                None => ""@,
            },
            Some(pd) => if pd != opt_view(e.default_ns) {
                " xmlns='"@ + ns_key(opt_view(e.default_ns)) + "'"@
            } else {
                ""@
            },
        }
    }
}

/// One rendered attribute, single-quoted and entity-escaped; `None` when
/// its namespace has no declared prefix.
pub open spec fn attr_token(
    a: ((Seq<char>, Option<Seq<char>>), Seq<char>),
    prefixes: Map<Seq<char>, Seq<char>>,
) -> Option<Seq<char>> {
    match a.0.1 {
        None => Some(" "@ + a.0.0 + "='"@ + spec_escape(a.1) + "'"@),
        Some(u) => if prefixes.contains_key(u) {
            Some(" "@ + prefixes[u] + ":"@ + a.0.0 + "='"@ + spec_escape(a.1) + "'"@)
        } else {
            None
        },
    }
}

/// The rendered attributes from position `i` on, in stored order.
pub open spec fn attrs_tokens(
    attrs: Seq<((Seq<char>, Option<Seq<char>>), Seq<char>)>,
    i: int,
    prefixes: Map<Seq<char>, Seq<char>>,
) -> Option<Seq<char>>
    decreases attrs.len() - i,
{
    if i < 0 || i >= attrs.len() {
        Some(""@)
    } else {
        match attr_token(attrs[i], prefixes) {
            None => None,
            Some(s) => match attrs_tokens(attrs, i + 1, prefixes) {
                None => None,
                Some(t) => Some(s + t),
            },
        }
    }
}

/// The rendered form of an element: open tag with derived declarations and
/// attributes, children, and matching close tag; self-closed when there are
/// no children. `None` when a needed prefix is not declared.
pub open spec fn render_elem(
    e: Element,
    parent_default: Option<Option<Seq<char>>>,
    inherited: Map<Seq<char>, Seq<char>>,
) -> Option<Seq<char>>
    decreases e, 1int,
{
    let all = inherited.union_prefer_right(e.prefixes@);
    match name_token(e, all) {
        None => None,
        Some(nt) => match attrs_tokens(e.attributes@, 0, all) {
            None => None,
            Some(at) => {
                let open = "<"@ + nt + default_decl(e, parent_default) + at;
                if e.children@.len() == 0 {
                    Some(open + "/>"@)
                } else {
                    match render_children(e.children@, 0, opt_view(e.default_ns), all) {
                        None => None,
                        Some(cs) => Some(open + ">"@ + cs + "</"@ + nt + ">"@),
                    }
                }
            },
        },
    }
}

/// The rendered forms of the child nodes from position `i` on: nested
/// elements recursed into, text escaped, CDATA, comments and processing
/// instructions bracketed literally.
pub open spec fn render_children(
    cs: Seq<Xml>,
    i: int,
    parent_default: Option<Seq<char>>,
    prefixes: Map<Seq<char>, Seq<char>>,
) -> Option<Seq<char>>
    decreases cs, cs.len() - i,
{
    if i < 0 || i >= cs.len() {
        Some(""@)
    } else {
        let head = match cs[i] {
            Xml::ElementNode(e) => render_elem(e, Some(parent_default), prefixes),
            Xml::CharacterNode(s) => Some(spec_escape(s@)),
            Xml::CDATANode(s) => Some("<![CDATA["@ + s@ + "]]>"@),
            Xml::CommentNode(s) => Some("<!--"@ + s@ + "-->"@),
            Xml::PINode(s) => Some("<?"@ + s@ + "?>"@),
        };
        match head {
            None => None,
            Some(h) => match render_children(cs, i + 1, parent_default, prefixes) {
                None => None,
                Some(t) => Some(h + t),
            },
        }
    }
}

/// The view of the optional parent default namespace handed to `fmt_elem`.
pub open spec fn parent_default_view(p: Option<&Option<String>>) -> Option<Option<Seq<char>>> {
    match p {
        None => None,
        Some(d) => Some(opt_view(*d)),
    }
}

/// Renders one element into text: `parent_default` is the enclosing
/// element's default namespace (`None` at the root), and `inherited` the
/// prefix declarations accumulated from the ancestors.
pub fn fmt_elem(elem: &Element, parent_default: Option<&Option<String>>, inherited: &PrefixMap) -> (r:
    Result<String, RenderError>)
    ensures
        match render_elem(*elem, parent_default_view(parent_default), inherited@) {
            Some(t) => r matches Ok(s) && s@ == t,
            None => r is Err,
        },
    decreases *elem,
{
    let all = inherited.merged(&elem.prefixes);
    let ghost am = all@;
    proof {
        reveal_strlit("");
    }

    // The tag-name token, shared by the open and close tags.
    let ns_differs = !opt_str_eq(&elem.ns, &elem.default_ns);
    let nt: String;
    if ns_differs {
        let key: &str = match &elem.ns {
            Some(u) => u.as_str(),
            None => "",
        };
        proof {
            assert(key@ == ns_key(opt_view(elem.ns)));
        }
        match all.get(key) {
            None => {
                return Err(RenderError::UnboundPrefix);
            },
            Some(p) => {
                let mut t = p.clone();
                t.append(":");
                t.append(elem.name.as_str());
                nt = t;
            },
        }
    } else {
        nt = elem.name.clone();
    }
    proof {
        assert(name_token(*elem, am) == Some(nt@));
    }

    let mut out = String::new();
    out.append("<");
    out.append(nt.as_str());

    // The derived default-namespace declaration.
    let mut has_xmlns = false;
    let mut i: usize = 0;
    while i < elem.attributes.len()
        invariant
            i <= elem.attributes@.len(),
            has_xmlns ==> has_xmlns_attr(elem.attributes@),
            !has_xmlns ==> forall|t: int|
                0 <= t < i ==> (#[trigger] elem.attributes@[t]).0.0 != "xmlns"@,
        decreases elem.attributes@.len() - i,
    {
        let e = elem.attributes.entry_at(i);
        if str_eq(e.0.0.as_str(), "xmlns") {
            has_xmlns = true;
        }
        i = i + 1;
    }
    if !has_xmlns {
        match parent_default {
            None => {
                match &elem.default_ns {
                    Some(u) => {
                        out.append(" xmlns='");
                        out.append(u.as_str());
                        out.append("'");
                    },
                    None => {},
                }
            },
            Some(pd) => {
                if !opt_str_eq(pd, &elem.default_ns) {
                    out.append(" xmlns='");
                    match &elem.default_ns {
                        Some(u) => out.append(u.as_str()),
                        None => {},
                    }
                    out.append("'");
                }
            },
        }
    }
    proof {
        assert(""@ + ""@ =~= ""@);
        assert(out@ =~= "<"@ + nt@ + default_decl(*elem, parent_default_view(parent_default)));
    }
    let ghost open0 = out@;

    // Attributes, in stored order.
    let mut attrs_out = String::new();
    let ghost av = elem.attributes@;
    proof {
        assert(av.len() >= 0);
    }
    let mut j: usize = 0;
    proof {
        if attrs_tokens(av, 0, am) is Some {
            assert(attrs_out@ + attrs_tokens(av, 0, am).unwrap() =~= attrs_tokens(
                av,
                0,
                am,
            ).unwrap());
        }
    }
    while j < elem.attributes.len()
        invariant
            j <= elem.attributes@.len(),
            av == elem.attributes@,
            am == all@,
            am == inherited@.union_prefer_right(elem.prefixes@),
            name_token(*elem, am) == Some(nt@),
            match attrs_tokens(av, j as int, am) {
                Some(t) => attrs_tokens(av, 0, am) == Some(attrs_out@ + t),
                None => attrs_tokens(av, 0, am) is None,
            },
        decreases elem.attributes@.len() - j,
    {
        let ghost before = attrs_out@;
        let e = elem.attributes.entry_at(j);
        match &e.0.1 {
            None => {
                attrs_out.append(" ");
                attrs_out.append(e.0.0.as_str());
                attrs_out.append("='");
                let esc = escape(e.1.as_str());
                attrs_out.append(esc.as_str());
                attrs_out.append("'");
                proof {
                    assert(attrs_out@ =~= before + (" "@ + av[j as int].0.0 + "='"@ + spec_escape(
                        av[j as int].1,
                    ) + "'"@));
                }
            },
            Some(u) => {
                match all.get(u.as_str()) {
                    None => {
                        proof {
                            assert(attrs_tokens(av, j as int, am) is None);
                        }
                        return Err(RenderError::UnboundPrefix);
                    },
                    Some(p) => {
                        attrs_out.append(" ");
                        attrs_out.append(p.as_str());
                        attrs_out.append(":");
                        attrs_out.append(e.0.0.as_str());
                        attrs_out.append("='");
                        let esc = escape(e.1.as_str());
                        attrs_out.append(esc.as_str());
                        attrs_out.append("'");
                        proof {
                            assert(attrs_out@ =~= before + (" "@ + am[opt_view(e.0.1).unwrap()]
                                + ":"@ + av[j as int].0.0 + "='"@ + spec_escape(av[j as int].1)
                                + "'"@));
                        }
                    },
                }
            },
        }
        proof {
            if attrs_tokens(av, j + 1, am) is Some {
                let t = attrs_tokens(av, j + 1, am).unwrap();
                let s = attr_token(av[j as int], am).unwrap();
                assert((before + s) + t =~= before + (s + t));
            }
        }
        j = j + 1;
    }
    proof {
        assert(attrs_tokens(av, av.len() as int, am) == Some(""@));
        assert(attrs_out@ + ""@ =~= attrs_out@);
        assert(attrs_tokens(av, 0, am) == Some(attrs_out@));
    }
    out.append(attrs_out.as_str());

    if elem.children.len() == 0 {
        out.append("/>");
        proof {
            assert(out@ =~= (open0 + attrs_out@) + "/>"@);
        }
        return Ok(out);
    }

    out.append(">");
    let ghost cv = elem.children@;
    let ghost pdv = opt_view(elem.default_ns);
    let mut children_out = String::new();
    let mut k: usize = 0;
    proof {
        if render_children(cv, 0, pdv, am) is Some {
            assert(children_out@ + render_children(cv, 0, pdv, am).unwrap() =~= render_children(
                cv,
                0,
                pdv,
                am,
            ).unwrap());
        }
    }
    while k < elem.children.len()
        invariant
            k <= elem.children@.len(),
            cv == elem.children@,
            av == elem.attributes@,
            am == all@,
            am == inherited@.union_prefer_right(elem.prefixes@),
            pdv == opt_view(elem.default_ns),
            name_token(*elem, am) == Some(nt@),
            attrs_tokens(av, 0, am) == Some(attrs_out@),
            cv.len() > 0,
            match render_children(cv, k as int, pdv, am) {
                Some(t) => render_children(cv, 0, pdv, am) == Some(children_out@ + t),
                None => render_children(cv, 0, pdv, am) is None,
            },
        decreases elem.children@.len() - k,
    {
        let ghost before = children_out@;
        proof {
            assert(decreases_to!(*elem => elem.children));
            assert(decreases_to!(elem.children => elem.children@));
            assert(decreases_to!(elem.children@ => elem.children@[k as int]));
        }
        match &elem.children[k] {
            Xml::ElementNode(e) => {
                proof {
                    assert(cv[k as int] == Xml::ElementNode(*e));
                    assert(decreases_to!(cv[k as int] => *e));
                }
                match fmt_elem(e, Some(&elem.default_ns), &all) {
                    Err(err) => {
                        proof {
                            assert(render_children(cv, k as int, pdv, am) is None);
                        }
                        return Err(err);
                    },
                    Ok(s) => {
                        children_out.append(s.as_str());
                        proof {
                            assert(children_out@ =~= before + render_elem(
                                *e,
                                Some(pdv),
                                am,
                            ).unwrap());
                        }
                    },
                }
            },
            Xml::CharacterNode(s) => {
                let esc = escape(s.as_str());
                children_out.append(esc.as_str());
                proof {
                    assert(children_out@ =~= before + spec_escape(s@));
                }
            },
            Xml::CDATANode(s) => {
                children_out.append("<![CDATA[");
                children_out.append(s.as_str());
                children_out.append("]]>");
                proof {
                    assert(children_out@ =~= before + ("<![CDATA["@ + s@ + "]]>"@));
                }
            },
            Xml::CommentNode(s) => {
                children_out.append("<!--");
                children_out.append(s.as_str());
                children_out.append("-->");
                proof {
                    assert(children_out@ =~= before + ("<!--"@ + s@ + "-->"@));
                }
            },
            Xml::PINode(s) => {
                children_out.append("<?");
                children_out.append(s.as_str());
                children_out.append("?>");
                proof {
                    assert(children_out@ =~= before + ("<?"@ + s@ + "?>"@));
                }
            },
        }
        proof {
            if render_children(cv, k + 1, pdv, am) is Some {
                let t = render_children(cv, k + 1, pdv, am).unwrap();
                let h = children_out@.skip(before.len() as int);
                assert(children_out@ =~= before + h);
                assert((before + h) + t =~= before + (h + t));
            }
        }
        k = k + 1;
    }
    proof {
        assert(render_children(cv, cv.len() as int, pdv, am) == Some(""@));
        assert(children_out@ + ""@ =~= children_out@);
        assert(render_children(cv, 0, pdv, am) == Some(children_out@));
    }
    out.append(children_out.as_str());
    out.append("</");
    out.append(nt.as_str());
    out.append(">");
    proof {
        assert(out@ =~= ((open0 + attrs_out@) + ">"@ + children_out@) + "</"@ + nt@ + ">"@);
        assert(((open0 + attrs_out@) + ">"@ + children_out@) + "</"@ + nt@ + ">"@ =~= (open0
            + attrs_out@) + ">"@ + children_out@ + "</"@ + nt@ + ">"@);
    }
    Ok(out)
}

impl Element {
    /// Renders this element, as a document root, to XML text.
    pub fn render(&self) -> (r: Result<String, RenderError>)
        ensures
            match render_elem(*self, None, Map::<Seq<char>, Seq<char>>::empty()) {
                Some(t) => r matches Ok(s) && s@ == t,
                None => r is Err,
            },
    {
        let base = PrefixMap::new();
        fmt_elem(self, None, &base)
    }
}

} // verus!
