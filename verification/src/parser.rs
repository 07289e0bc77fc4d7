//! The tokenizer: a character-at-a-time finite-state machine turning a byte
//! sequence into lexical events, resolving namespace prefixes as they are
//! declared and tracking line and column for diagnostics.

use vstd::prelude::*;
use crate::attrmap::{opt_view, opt_ref_view, spec_get, AttrMap};
use crate::codec::{find_char, spec_unescape};
use crate::ns::{stack_lookup, NsStack, Resolution};
use crate::stdx::{chars_to_string, clone_opt_string, str_eq};

verus! {

/// A start tag: local name, resolved namespace, declared prefix, and the
/// tag's attributes.
#[derive(Debug, Clone, PartialEq, Eq)]
pub struct StartTag {
    /// The local part of the tag name.
    pub name: String,
    /// The namespace URI the tag name resolves to, if any.
    pub ns: Option<String>,
    /// The prefix written in the source, if any.
    pub prefix: Option<String>,
    /// The tag's attributes, keyed by (local name, namespace URI option).
    pub attributes: AttrMap,
}

/// An end tag: local name, resolved namespace and declared prefix.
#[derive(Debug, Clone, PartialEq, Eq)]
pub struct EndTag {
    /// The local part of the tag name.
    pub name: String,
    /// The namespace URI the tag name resolves to, if any.
    pub ns: Option<String>,
    /// The prefix written in the source, if any.
    pub prefix: Option<String>,
}

/// Events returned by the `Parser`.
#[derive(Debug, Clone, PartialEq, Eq)]
pub enum Event {
    /// A processing instruction was found.
    PI(String),
    /// A start tag was found.
    ElementStart(StartTag),
    /// An end tag was found.
    ElementEnd(EndTag),
    /// Character data was found, entity-unescaped.
    Characters(String),
    /// CDATA was found, kept literal.
    CDATA(String),
    /// A comment was found.
    Comment(String),
}

/// The mathematical value of a `StartTag`.
pub ghost struct StartTagModel {
    pub name: Seq<char>,
    pub ns: Option<Seq<char>>,
    pub prefix: Option<Seq<char>>,
    pub attributes: Seq<((Seq<char>, Option<Seq<char>>), Seq<char>)>,
}

/// The mathematical value of an `EndTag`.
pub ghost struct EndTagModel {
    pub name: Seq<char>,
    pub ns: Option<Seq<char>>,
    pub prefix: Option<Seq<char>>,
}

/// The mathematical value of an `Event`.
pub ghost enum EventModel {
    PI(Seq<char>),
    ElementStart(StartTagModel),
    ElementEnd(EndTagModel),
    Characters(Seq<char>),
    CDATA(Seq<char>),
    Comment(Seq<char>),
}

impl View for StartTag {
    type V = StartTagModel;

    open spec fn view(&self) -> StartTagModel {
        StartTagModel {
            name: self.name@,
            ns: opt_view(self.ns),
            prefix: opt_view(self.prefix),
            attributes: self.attributes@,
        }
    }
}

impl View for EndTag {
    type V = EndTagModel;

    open spec fn view(&self) -> EndTagModel {
        EndTagModel { name: self.name@, ns: opt_view(self.ns), prefix: opt_view(self.prefix) }
    }
}

impl View for Event {
    type V = EventModel;

    open spec fn view(&self) -> EventModel {
        match self {
            Event::PI(s) => EventModel::PI(s@),
            Event::ElementStart(t) => EventModel::ElementStart(t@),
            Event::ElementEnd(t) => EventModel::ElementEnd(t@),
            Event::Characters(s) => EventModel::Characters(s@),
            Event::CDATA(s) => EventModel::CDATA(s@),
            Event::Comment(s) => EventModel::Comment(s@),
        }
    }
}

/// The structure returned when erroneous XML is read.
#[derive(Debug, Clone, Copy, PartialEq, Eq)]
pub struct ParserError {
    /// The 1-based line number at which the error occurred.
    pub line: u32,
    /// The column number at which the error occurred.
    pub col: u32,
    /// The kind of error encountered.
    pub kind: ParserErrorKind,
}

/// The kinds of lexical error.
#[derive(Debug, Clone, Copy, PartialEq, Eq)]
pub enum ParserErrorKind {
    UnboundNsPrefixInTagName,
    UnboundNsPrefixInAttributeName,
    SpaceInAttributeName,
    DuplicateAttribute,
    UndelimitedAttribute,
    InvalidEntity,
    InvalidCdataStart,
    InvalidCommentStart,
    InvalidCommentContent,
    InvalidDoctype,
    ExpectedTagClose,
    ExpectedLwsOrTagClose,
    MalformedXml,
}

/// The text describing a kind of lexical error.
pub open spec fn kind_message(k: ParserErrorKind) -> Seq<char> {
    match k {
        ParserErrorKind::UnboundNsPrefixInTagName => "Unbound namespace prefix in tag name"@,
        ParserErrorKind::UnboundNsPrefixInAttributeName => {
            "Unbound namespace prefix in attribute name"@
        },
        ParserErrorKind::SpaceInAttributeName => "Space occured in attribute name"@,
        ParserErrorKind::DuplicateAttribute => "Duplicate attribute"@,
        ParserErrorKind::UndelimitedAttribute => "Attribute value not enclosed in ' or \""@,
        ParserErrorKind::InvalidEntity => "Found invalid entity"@,
        ParserErrorKind::InvalidCdataStart => "Invalid CDATA opening sequence"@,
        ParserErrorKind::InvalidCommentStart => "Expected 2nd '-' to start comment"@,
        ParserErrorKind::InvalidCommentContent => {
            "No more than one adjacent '-' allowed in a comment"@
        },
        ParserErrorKind::InvalidDoctype => "Invalid DOCTYPE"@,
        ParserErrorKind::ExpectedTagClose => "Expected '>' to close tag"@,
        ParserErrorKind::ExpectedLwsOrTagClose => "Expected '>' to close tag, or LWS"@,
        ParserErrorKind::MalformedXml => "Malformed XML"@,
    }
}

impl ParserErrorKind {
    /// The text describing this kind of error.
    pub fn message(&self) -> (r: &'static str)
        ensures
            r@ == kind_message(*self),
    {
        match self {
            ParserErrorKind::UnboundNsPrefixInTagName => "Unbound namespace prefix in tag name",
            ParserErrorKind::UnboundNsPrefixInAttributeName => {
                "Unbound namespace prefix in attribute name"
            },
            ParserErrorKind::SpaceInAttributeName => "Space occured in attribute name",
            ParserErrorKind::DuplicateAttribute => "Duplicate attribute",
            ParserErrorKind::UndelimitedAttribute => "Attribute value not enclosed in ' or \"",
            ParserErrorKind::InvalidEntity => "Found invalid entity",
            ParserErrorKind::InvalidCdataStart => "Invalid CDATA opening sequence",
            ParserErrorKind::InvalidCommentStart => "Expected 2nd '-' to start comment",
            ParserErrorKind::InvalidCommentContent => {
                "No more than one adjacent '-' allowed in a comment"
            },
            ParserErrorKind::InvalidDoctype => "Invalid DOCTYPE",
            ParserErrorKind::ExpectedTagClose => "Expected '>' to close tag",
            ParserErrorKind::ExpectedLwsOrTagClose => "Expected '>' to close tag, or LWS",
            ParserErrorKind::MalformedXml => "Malformed XML",
        }
    }
}

/// The text describing a lexical error, with its position.
pub open spec fn parser_error_message(e: ParserError) -> Seq<char> {
    "Parse error; Line: "@ + crate::stdx::dec_digits_of(e.line as int) + ", Column: "@
        + crate::stdx::dec_digits_of(e.col as int) + ", Reason: "@ + kind_message(e.kind)
}

impl ParserError {
    /// The text describing this error, with its position.
    pub fn message(&self) -> (r: String)
        ensures
            r@ == parser_error_message(*self),
    {
        let mut s = String::new();
        s.append("Parse error; Line: ");
        let line = crate::stdx::u32_to_dec_string(self.line);
        s.append(line.as_str());
        s.append(", Column: ");
        let col = crate::stdx::u32_to_dec_string(self.col);
        s.append(col.as_str());
        s.append(", Reason: ");
        s.append(self.kind.message());
        proof {
            assert(s@ =~= parser_error_message(*self));
        }
        s
    }
}

/// The states of the tokenizer's finite-state machine.
#[derive(Debug, Clone, Copy, PartialEq, Eq)]
pub enum State {
    OutsideTag,
    TagOpened,
    InProcessingInstructions,
    InTagName,
    InCloseTagName,
    InTag,
    InAttrName,
    InAttrValue,
    ExpectDelimiter,
    ExpectClose,
    ExpectSpaceOrClose,
    InExclamationMark,
    InCDATAOpening,
    InCDATA,
    InCommentOpening,
    InComment1,
    InComment2,
    InDoctype,
}

/// The mathematical state of a `Parser`.
#[verifier::ext_equal]
pub ghost struct ParserModel {
    pub line: u32,
    pub col: u32,
    pub has_error: bool,
    pub input: Seq<u8>,
    pub pos: int,
    pub buf: Seq<char>,
    pub namespaces: Seq<Seq<(Seq<char>, Seq<char>)>>,
    pub attributes: Seq<(Seq<char>, Option<Seq<char>>, Seq<char>)>,
    pub st: State,
    pub name: Option<(Option<Seq<char>>, Seq<char>)>,
    pub attr: Option<(Option<Seq<char>>, Seq<char>)>,
    pub delim: Option<char>,
    pub level: int,
}

/// What one transition of the state machine produces.
pub ghost enum StepOut {
    /// No event yet: keep consuming characters.
    Proceed,
    /// An event is emitted.
    Emit(EventModel),
    /// A lexical error is raised.
    Fail(ParserErrorKind),
}

pub open spec fn is_ws(c: char) -> bool {
    c == ' ' || c == '\t' || c == '\r' || c == '\n'
}

/// Splits a qualified name at its first colon into prefix and local part.
pub open spec fn spec_qname(s: Seq<char>) -> (Option<Seq<char>>, Seq<char>) {
    match find_char(s, ':') {
        None => (None, s),
        Some(i) => (Some(s.take(i)), s.skip(i + 1)),
    }
}

/// The namespace of an unprefixed name: the innermost binding of the empty
/// prefix, with an empty or missing binding meaning no namespace.
pub open spec fn ns_of_default(fs: Seq<Seq<(Seq<char>, Seq<char>)>>) -> Option<Seq<char>> {
    match stack_lookup(fs, Seq::empty()) {
        Some(u) => if u.len() == 0 {
            None
        } else {
            Some(u)
        },
        None => None,
    }
}

/// The namespace of a prefixed name: `None` when no frame binds the prefix
/// (a hard error at the call site); otherwise the resolved namespace, where
/// an explicit unbinding resolves to no namespace.
pub open spec fn ns_of_prefixed(fs: Seq<Seq<(Seq<char>, Seq<char>)>>, p: Seq<char>) -> Option<
    Option<Seq<char>>,
> {
    match stack_lookup(fs, p) {
        None => None,
        Some(u) => Some(
            if u.len() == 0 {
                None
            } else {
                Some(u)
            },
        ),
    }
}

/// The namespace of a possibly prefixed name.
pub open spec fn ns_of_qname(
    fs: Seq<Seq<(Seq<char>, Seq<char>)>>,
    prefix: Option<Seq<char>>,
) -> Option<Option<Seq<char>>> {
    match prefix {
        None => Some(ns_of_default(fs)),
        Some(p) => ns_of_prefixed(fs, p),
    }
}

/// Resolves scanned attributes' provisional prefixes against the completed
/// namespace frame, in order, failing on the first unbound prefix or
/// duplicate resolved key.
pub open spec fn resolve_attrs(
    fs: Seq<Seq<(Seq<char>, Seq<char>)>>,
    raw: Seq<(Seq<char>, Option<Seq<char>>, Seq<char>)>,
    acc: Seq<((Seq<char>, Option<Seq<char>>), Seq<char>)>,
) -> Result<Seq<((Seq<char>, Option<Seq<char>>), Seq<char>)>, ParserErrorKind>
    decreases raw.len(),
{
    if raw.len() == 0 {
        Ok(acc)
    } else {
        let nsr = match raw[0].1 {
            None => Some(None),
            Some(p) => ns_of_prefixed(fs, p),
        };
        match nsr {
            None => Err(ParserErrorKind::UnboundNsPrefixInAttributeName),
            Some(nsv) => if spec_get(acc, (raw[0].0, nsv)) is Some {
                Err(ParserErrorKind::DuplicateAttribute)
            } else {
                resolve_attrs(fs, raw.skip(1), acc.push(((raw[0].0, nsv), raw[0].2)))
            },
        }
    }
}

pub open spec fn xmlns_chars() -> Seq<char> {
    seq!['x', 'm', 'l', 'n', 's']
}

/// One transition of the tokenizer on one character.
pub open spec fn step(pre: ParserModel, c: char) -> (ParserModel, StepOut) {
    match pre.st {
        State::OutsideTag => if c == '<' {
            if pre.buf.len() == 0 {
                (ParserModel { st: State::TagOpened, ..pre }, StepOut::Proceed)
            } else {
                let post = ParserModel { st: State::TagOpened, buf: Seq::empty(), ..pre };
                match spec_unescape(pre.buf) {
                    Some(t) => (post, StepOut::Emit(EventModel::Characters(t))),
                    None => (post, StepOut::Fail(ParserErrorKind::InvalidEntity)),
                }
            }
        } else {
            (ParserModel { buf: pre.buf.push(c), ..pre }, StepOut::Proceed)
        },
        State::TagOpened => if c == '?' {
            (ParserModel { st: State::InProcessingInstructions, ..pre }, StepOut::Proceed)
        } else if c == '!' {
            (ParserModel { st: State::InExclamationMark, ..pre }, StepOut::Proceed)
        } else if c == '/' {
            (ParserModel { st: State::InCloseTagName, ..pre }, StepOut::Proceed)
        } else {
            (ParserModel { st: State::InTagName, buf: pre.buf.push(c), ..pre }, StepOut::Proceed)
        },
        State::InProcessingInstructions => if c == '?' {
            (ParserModel { level: 1, buf: pre.buf.push(c), ..pre }, StepOut::Proceed)
        } else if c == '>' && pre.level == 1 {
            (
                ParserModel { level: 0, st: State::OutsideTag, buf: Seq::empty(), ..pre },
                StepOut::Emit(EventModel::PI(pre.buf.drop_last())),
            )
        } else {
            (ParserModel { buf: pre.buf.push(c), ..pre }, StepOut::Proceed)
        },
        State::InTagName => if c == '/' || c == '>' {
            let q = spec_qname(pre.buf);
            match ns_of_qname(pre.namespaces, q.0) {
                None => (
                    ParserModel { buf: Seq::empty(), ..pre },
                    StepOut::Fail(ParserErrorKind::UnboundNsPrefixInTagName),
                ),
                Some(ns) => {
                    let frames2 = pre.namespaces.push(Seq::empty());
                    let em = EventModel::ElementStart(
                        StartTagModel { name: q.1, ns, prefix: q.0, attributes: Seq::empty() },
                    );
                    if c == '/' {
                        (
                            ParserModel {
                                st: State::ExpectClose,
                                buf: Seq::empty(),
                                namespaces: frames2,
                                name: Some((q.0, q.1)),
                                ..pre
                            },
                            StepOut::Emit(em),
                        )
                    } else {
                        (
                            ParserModel {
                                st: State::OutsideTag,
                                buf: Seq::empty(),
                                namespaces: frames2,
                                ..pre
                            },
                            StepOut::Emit(em),
                        )
                    }
                },
            }
        } else if is_ws(c) {
            (
                ParserModel {
                    st: State::InTag,
                    buf: Seq::empty(),
                    namespaces: pre.namespaces.push(Seq::empty()),
                    name: Some(spec_qname(pre.buf)),
                    ..pre
                },
                StepOut::Proceed,
            )
        } else {
            (ParserModel { buf: pre.buf.push(c), ..pre }, StepOut::Proceed)
        },
        State::InCloseTagName => if is_ws(c) || c == '>' {
            let q = spec_qname(pre.buf);
            match ns_of_qname(pre.namespaces, q.0) {
                None => (
                    ParserModel { buf: Seq::empty(), ..pre },
                    StepOut::Fail(ParserErrorKind::UnboundNsPrefixInTagName),
                ),
                Some(ns) => {
                    let frames2 = if pre.namespaces.len() > 0 {
                        pre.namespaces.drop_last()
                    } else {
                        pre.namespaces
                    };
                    let st2 = if c == '>' {
                        State::OutsideTag
                    } else {
                        State::ExpectSpaceOrClose
                    };
                    (
                        ParserModel { st: st2, buf: Seq::empty(), namespaces: frames2, ..pre },
                        StepOut::Emit(
                            EventModel::ElementEnd(EndTagModel { name: q.1, ns, prefix: q.0 }),
                        ),
                    )
                },
            }
        } else {
            (ParserModel { buf: pre.buf.push(c), ..pre }, StepOut::Proceed)
        },
        State::InTag => if c == '/' || c == '>' {
            let pn = pre.name.unwrap();
            let post0 = ParserModel { attributes: Seq::empty(), name: None, ..pre };
            match ns_of_qname(pre.namespaces, pn.0) {
                None => (post0, StepOut::Fail(ParserErrorKind::UnboundNsPrefixInTagName)),
                Some(ns) => match resolve_attrs(pre.namespaces, pre.attributes, Seq::empty()) {
                    Err(k) => (post0, StepOut::Fail(k)),
                    Ok(attrs) => {
                        let em = EventModel::ElementStart(
                            StartTagModel { name: pn.1, ns, prefix: pn.0, attributes: attrs },
                        );
                        if c == '/' {
                            (
                                ParserModel {
                                    st: State::ExpectClose,
                                    attributes: Seq::empty(),
                                    name: Some(pn),
                                    ..pre
                                },
                                StepOut::Emit(em),
                            )
                        } else {
                            (
                                ParserModel {
                                    st: State::OutsideTag,
                                    attributes: Seq::empty(),
                                    name: None,
                                    ..pre
                                },
                                StepOut::Emit(em),
                            )
                        }
                    },
                },
            }
        } else if is_ws(c) {
            (pre, StepOut::Proceed)
        } else {
            (ParserModel { buf: pre.buf.push(c), st: State::InAttrName, ..pre }, StepOut::Proceed)
        },
        State::InAttrName => if c == '=' {
            (
                ParserModel {
                    level: 0,
                    attr: Some(spec_qname(pre.buf)),
                    buf: Seq::empty(),
                    st: State::ExpectDelimiter,
                    ..pre
                },
                StepOut::Proceed,
            )
        } else if is_ws(c) {
            (ParserModel { level: 1, ..pre }, StepOut::Proceed)
        } else if pre.level == 0 {
            (ParserModel { buf: pre.buf.push(c), ..pre }, StepOut::Proceed)
        } else {
            (pre, StepOut::Fail(ParserErrorKind::SpaceInAttributeName))
        },
        State::InAttrValue => if pre.delim == Some(c) {
            let pa = pre.attr.unwrap();
            let post0 = ParserModel {
                delim: None,
                st: State::InTag,
                attr: None,
                buf: Seq::empty(),
                ..pre
            };
            match spec_unescape(pre.buf) {
                None => (post0, StepOut::Fail(ParserErrorKind::InvalidEntity)),
                Some(value) => {
                    let frames2 = if pa.0 is None && pa.1 == xmlns_chars() {
                        pre.namespaces.update(
                            pre.namespaces.len() - 1,
                            pre.namespaces.last().push((Seq::empty(), value)),
                        )
                    } else if pa.0 == Some(xmlns_chars()) {
                        pre.namespaces.update(
                            pre.namespaces.len() - 1,
                            pre.namespaces.last().push((pa.1, value)),
                        )
                    } else {
                        pre.namespaces
                    };
                    (
                        ParserModel {
                            namespaces: frames2,
                            attributes: pre.attributes.push((pa.1, pa.0, value)),
                            ..post0
                        },
                        StepOut::Proceed,
                    )
                },
            }
        } else {
            (ParserModel { buf: pre.buf.push(c), ..pre }, StepOut::Proceed)
        },
        State::ExpectDelimiter => if c == '"' || c == '\'' {
            (ParserModel { delim: Some(c), st: State::InAttrValue, ..pre }, StepOut::Proceed)
        } else if is_ws(c) {
            (pre, StepOut::Proceed)
        } else {
            (pre, StepOut::Fail(ParserErrorKind::UndelimitedAttribute))
        },
        State::ExpectClose => if c == '>' {
            let pn = pre.name.unwrap();
            let post0 = ParserModel { st: State::OutsideTag, name: None, ..pre };
            match ns_of_qname(pre.namespaces, pn.0) {
                None => (post0, StepOut::Fail(ParserErrorKind::UnboundNsPrefixInTagName)),
                Some(ns) => {
                    let frames2 = if pre.namespaces.len() > 0 {
                        pre.namespaces.drop_last()
                    } else {
                        pre.namespaces
                    };
                    (
                        ParserModel { namespaces: frames2, ..post0 },
                        StepOut::Emit(
                            EventModel::ElementEnd(EndTagModel { name: pn.1, ns, prefix: pn.0 }),
                        ),
                    )
                },
            }
        } else {
            (pre, StepOut::Fail(ParserErrorKind::ExpectedTagClose))
        },
        State::ExpectSpaceOrClose => if is_ws(c) {
            (pre, StepOut::Proceed)
        } else if c == '>' {
            (ParserModel { st: State::OutsideTag, ..pre }, StepOut::Proceed)
        } else {
            (pre, StepOut::Fail(ParserErrorKind::ExpectedLwsOrTagClose))
        },
        State::InExclamationMark => if c == '-' {
            (ParserModel { st: State::InCommentOpening, ..pre }, StepOut::Proceed)
        } else if c == '[' {
            (ParserModel { st: State::InCDATAOpening, ..pre }, StepOut::Proceed)
        } else if c == 'D' {
            (ParserModel { st: State::InDoctype, ..pre }, StepOut::Proceed)
        } else {
            (pre, StepOut::Fail(ParserErrorKind::MalformedXml))
        },
        State::InCDATAOpening => if c == seq!['C', 'D', 'A', 'T', 'A', '['][pre.level] {
            if pre.level + 1 == 6 {
                (ParserModel { level: 0, st: State::InCDATA, ..pre }, StepOut::Proceed)
            } else {
                (ParserModel { level: pre.level + 1, ..pre }, StepOut::Proceed)
            }
        } else {
            (pre, StepOut::Fail(ParserErrorKind::InvalidCdataStart))
        },
        State::InCDATA => if c == ']' {
            (
                ParserModel {
                    buf: pre.buf.push(c),
                    level: if pre.level < 2 {
                        pre.level + 1
                    } else {
                        2
                    },
                    ..pre
                },
                StepOut::Proceed,
            )
        } else if c == '>' && pre.level >= 2 {
            (
                ParserModel { st: State::OutsideTag, level: 0, buf: Seq::empty(), ..pre },
                StepOut::Emit(EventModel::CDATA(pre.buf.take(pre.buf.len() - 2))),
            )
        } else {
            (ParserModel { buf: pre.buf.push(c), level: 0, ..pre }, StepOut::Proceed)
        },
        State::InCommentOpening => if c == '-' {
            (ParserModel { st: State::InComment1, level: 0, ..pre }, StepOut::Proceed)
        } else {
            (pre, StepOut::Fail(ParserErrorKind::InvalidCommentStart))
        },
        State::InComment1 => {
            let l2 = if c == '-' {
                pre.level + 1
            } else {
                0
            };
            if l2 == 2 {
                (
                    ParserModel { level: 0, st: State::InComment2, buf: pre.buf.push(c), ..pre },
                    StepOut::Proceed,
                )
            } else {
                (ParserModel { level: l2, buf: pre.buf.push(c), ..pre }, StepOut::Proceed)
            }
        },
        State::InComment2 => if c != '>' {
            (pre, StepOut::Fail(ParserErrorKind::InvalidCommentContent))
        } else {
            (
                ParserModel { st: State::OutsideTag, buf: Seq::empty(), ..pre },
                StepOut::Emit(EventModel::Comment(pre.buf.take(pre.buf.len() - 2))),
            )
        },
        State::InDoctype => if 0 <= pre.level && pre.level <= 5 {
            if c == seq!['O', 'C', 'T', 'Y', 'P', 'E'][pre.level] {
                (ParserModel { level: pre.level + 1, ..pre }, StepOut::Proceed)
            } else {
                (pre, StepOut::Fail(ParserErrorKind::InvalidDoctype))
            }
        } else if pre.level == 6 {
            if is_ws(c) {
                (ParserModel { level: 7, ..pre }, StepOut::Proceed)
            } else {
                (pre, StepOut::Fail(ParserErrorKind::InvalidDoctype))
            }
        } else if c == '>' {
            (ParserModel { level: 0, st: State::OutsideTag, ..pre }, StepOut::Proceed)
        } else {
            (pre, StepOut::Proceed)
        },
    }
}

/// Bounds on position tracking, independent of the machine state.
pub open spec fn pos_inv(m: ParserModel) -> bool {
    &&& 0 <= m.pos <= m.input.len()
    &&& m.input.len() < 0xFFFF_FFFF
    &&& 1 <= m.line <= m.pos + 1
    &&& m.col <= m.pos
    &&& m.level >= 0
}

/// What holds of the scratch fields in each machine state.
pub open spec fn state_inv(m: ParserModel) -> bool {
    &&& match m.st {
        State::InProcessingInstructions => m.level <= 1 && (m.level == 1 ==> m.buf.len() >= 1),
        State::InAttrName => m.level <= 1,
        State::InCDATAOpening => m.level <= 5,
        State::InCDATA => m.level <= 2 && m.level <= m.buf.len(),
        State::InComment1 => m.level <= 1 && m.buf.len() >= m.level,
        State::InComment2 => m.level == 0 && m.buf.len() >= 2,
        State::InDoctype => m.level <= 7,
        _ => m.level == 0,
    }
    &&& (m.st == State::InAttrValue ==> m.delim is Some && m.attr is Some)
    &&& (m.st == State::ExpectDelimiter ==> m.attr is Some)
    &&& (m.st == State::InTag || m.st == State::InAttrName || m.st == State::InAttrValue || m.st
        == State::ExpectDelimiter || m.st == State::ExpectClose ==> m.name is Some)
    &&& (m.st == State::InTag || m.st == State::InAttrName || m.st == State::InAttrValue || m.st
        == State::ExpectDelimiter ==> m.namespaces.len() >= 1)
}

/// The well-formedness invariant of the tokenizer: position bounds always,
/// and the per-state conditions until an error has poisoned the parser.
pub open spec fn parser_inv(m: ParserModel) -> bool {
    pos_inv(m) && (!m.has_error ==> state_inv(m))
}

/// How a transition's outcome shows up in a handler's return value.
pub open spec fn out_matches(
    pre: ParserModel,
    out: StepOut,
    r: Result<Option<Event>, ParserError>,
) -> bool {
    match out {
        StepOut::Proceed => r matches Ok(x) && x is None,
        StepOut::Emit(em) => r matches Ok(x) && x matches Some(ev) && ev@ == em,
        StepOut::Fail(k) => r matches Err(e) && e == (ParserError {
            line: pre.line,
            col: pre.col,
            kind: k,
        }),
    }
}

/// A handler performed exactly one transition of the state machine.
pub open spec fn steps_to(
    pre: ParserModel,
    c: char,
    post: ParserModel,
    r: Result<Option<Event>, ParserError>,
) -> bool {
    post == step(pre, c).0 && out_matches(pre, step(pre, c).1, r)
}

/// A transition changes neither the input, the position, nor the recorded
/// line and column.
pub proof fn lemma_step_io(pre: ParserModel, c: char)
    ensures
        step(pre, c).0.input == pre.input,
        step(pre, c).0.pos == pre.pos,
        step(pre, c).0.line == pre.line,
        step(pre, c).0.col == pre.col,
        step(pre, c).0.has_error == pre.has_error,
{
}

/// Pulling the next event: consume characters one at a time, stepping the
/// machine, until it emits an event, raises an error, or the input ends.
pub open spec fn spec_pull(m: ParserModel) -> (ParserModel, Option<
    Result<EventModel, ParserError>,
>)
    decreases m.input.len() - m.pos
        when 0 <= m.pos <= m.input.len() via spec_pull_dec
{
    if m.has_error {
        (m, None)
    } else if m.pos >= m.input.len() {
        (m, None)
    } else {
        let c = m.input[m.pos] as char;
        let m1 = ParserModel {
            pos: m.pos + 1,
            line: if c == '\n' {
                (m.line + 1) as u32
            } else {
                m.line
            },
            col: if c == '\n' {
                0u32
            } else {
                (m.col + 1) as u32
            },
            ..m
        };
        let sr = step(m1, c);
        match sr.1 {
            StepOut::Proceed => spec_pull(sr.0),
            StepOut::Emit(em) => (sr.0, Some(Ok(em))),
            StepOut::Fail(k) => (
                ParserModel { has_error: true, ..sr.0 },
                Some(Err(ParserError { line: sr.0.line, col: sr.0.col, kind: k })),
            ),
        }
    }
}

#[via_fn]
proof fn spec_pull_dec(m: ParserModel) {
    if !m.has_error && m.pos < m.input.len() {
        let c = m.input[m.pos] as char;
        let m1 = ParserModel {
            pos: m.pos + 1,
            line: if c == '\n' {
                (m.line + 1) as u32
            } else {
                m.line
            },
            col: if c == '\n' {
                0u32
            } else {
                (m.col + 1) as u32
            },
            ..m
        };
        lemma_step_io(m1, c);
    }
}

/// Pulling keeps the input, never moves the position backwards, and moves
/// it strictly forwards whenever it answers an event or an error.
pub proof fn lemma_pull_progress(m: ParserModel)
    requires
        0 <= m.pos <= m.input.len(),
    ensures
        spec_pull(m).0.input == m.input,
        m.pos <= spec_pull(m).0.pos <= m.input.len(),
        spec_pull(m).1 is Some ==> spec_pull(m).0.pos > m.pos,
    decreases m.input.len() - m.pos,
{
    if !m.has_error && m.pos < m.input.len() {
        let c = m.input[m.pos] as char;
        let m1 = ParserModel {
            pos: m.pos + 1,
            line: if c == '\n' {
                (m.line + 1) as u32
            } else {
                m.line
            },
            col: if c == '\n' {
                0u32
            } else {
                (m.col + 1) as u32
            },
            ..m
        };
        lemma_step_io(m1, c);
        let sr = step(m1, c);
        match sr.1 {
            StepOut::Proceed => {
                lemma_pull_progress(sr.0);
            },
            StepOut::Emit(_) => {},
            StepOut::Fail(_) => {},
        }
    }
}

/// An error is terminal, as is the end of the input: a poisoned or
/// exhausted parser yields nothing more and never changes again.
pub proof fn lemma_pull_terminal(m: ParserModel)
    requires
        0 <= m.pos <= m.input.len(),
        m.has_error || m.pos == m.input.len(),
    ensures
        spec_pull(m) == (m, None::<Result<EventModel, ParserError>>),
{
}

/// Attribute lists have unique keys.
pub open spec fn unique_keys(attrs: Seq<((Seq<char>, Option<Seq<char>>), Seq<char>)>) -> bool {
    forall|i: int, j: int|
        0 <= i < j < attrs.len() ==> (#[trigger] attrs[i]).0 != (#[trigger] attrs[j]).0
}

/// Resolving attributes never produces two entries with one key: a
/// duplicate is rejected instead.
pub proof fn lemma_resolve_attrs_unique(
    fs: Seq<Seq<(Seq<char>, Seq<char>)>>,
    raw: Seq<(Seq<char>, Option<Seq<char>>, Seq<char>)>,
    acc: Seq<((Seq<char>, Option<Seq<char>>), Seq<char>)>,
)
    requires
        unique_keys(acc),
    ensures
        resolve_attrs(fs, raw, acc) matches Ok(out) ==> unique_keys(out),
    decreases raw.len(),
{
    if raw.len() > 0 {
        let nsr = match raw[0].1 {
            None => Some(None),
            Some(p) => ns_of_prefixed(fs, p),
        };
        match nsr {
            None => {},
            Some(nsv) => {
                if spec_get(acc, (raw[0].0, nsv)) is None {
                    crate::attrmap::lemma_spec_get_none(acc, (raw[0].0, nsv));
                    let acc2 = acc.push(((raw[0].0, nsv), raw[0].2));
                    assert(unique_keys(acc2));
                    lemma_resolve_attrs_unique(fs, raw.skip(1), acc2);
                }
            },
        }
    }
}

/// A start tag the machine emits carries attributes with unique keys.
pub proof fn lemma_step_start_unique(pre: ParserModel, c: char)
    ensures
        step(pre, c).1 matches StepOut::Emit(EventModel::ElementStart(st)) ==> unique_keys(
            st.attributes,
        ),
{
    if pre.st == State::InTag {
        assert(unique_keys(Seq::<((Seq<char>, Option<Seq<char>>), Seq<char>)>::empty()));
        lemma_resolve_attrs_unique(pre.namespaces, pre.attributes, Seq::empty());
    }
    if pre.st == State::InTagName {
        assert(unique_keys(Seq::<((Seq<char>, Option<Seq<char>>), Seq<char>)>::empty()));
    }
}

/// A start tag pulled from the input carries attributes with unique keys.
pub proof fn lemma_pull_start_unique(m: ParserModel)
    requires
        0 <= m.pos <= m.input.len(),
    ensures
        spec_pull(m).1 matches Some(Ok(EventModel::ElementStart(st))) ==> unique_keys(
            st.attributes,
        ),
    decreases m.input.len() - m.pos,
{
    if !m.has_error && m.pos < m.input.len() {
        let c = m.input[m.pos] as char;
        let m1 = ParserModel {
            pos: m.pos + 1,
            line: if c == '\n' {
                (m.line + 1) as u32
            } else {
                m.line
            },
            col: if c == '\n' {
                0u32
            } else {
                (m.col + 1) as u32
            },
            ..m
        };
        lemma_step_io(m1, c);
        lemma_step_start_unique(m1, c);
        let sr = step(m1, c);
        match sr.1 {
            StepOut::Proceed => {
                lemma_pull_start_unique(sr.0);
            },
            StepOut::Emit(_) => {},
            StepOut::Fail(_) => {},
        }
    }
}

/// The view of the scratch field holding a scanned qualified name.
pub open spec fn qname_view(o: Option<(Option<String>, String)>) -> Option<
    (Option<Seq<char>>, Seq<char>),
> {
    match o {
        None => None,
        Some(p) => Some((opt_view(p.0), p.1@)),
    }
}

/// The state of a parse just begun on the given input.
pub open spec fn initial_model(input: Seq<u8>) -> ParserModel {
    ParserModel {
        line: 1,
        col: 0,
        has_error: false,
        input,
        pos: 0,
        buf: Seq::empty(),
        namespaces: seq![
            seq![
                ("xml"@, "http://www.w3.org/XML/1998/namespace"@),
                ("xmlns"@, "http://www.w3.org/2000/xmlns/"@),
            ],
        ],
        attributes: Seq::empty(),
        st: State::OutsideTag,
        name: None,
        attr: None,
        delim: None,
        level: 0,
    }
}

/// A streaming XML parser over an in-memory byte sequence.
///
/// Events and errors are requested one at a time with [`Parser::next`]; once
/// an error has been produced the parser behaves as exhausted.
pub struct Parser {
    line: u32,
    col: u32,
    has_error: bool,
    data: Vec<u8>,
    pos: usize,
    buf: Vec<char>,
    namespaces: NsStack,
    attributes: Vec<(String, Option<String>, String)>,
    st: State,
    name: Option<(Option<String>, String)>,
    attr: Option<(Option<String>, String)>,
    delim: Option<char>,
    level: usize,
}

impl View for Parser {
    type V = ParserModel;

    closed spec fn view(&self) -> ParserModel {
        ParserModel {
            line: self.line,
            col: self.col,
            has_error: self.has_error,
            input: self.data@,
            pos: self.pos as int,
            buf: self.buf@,
            namespaces: self.namespaces@,
            attributes: self.attributes@.map_values(
                |a: (String, Option<String>, String)| (a.0@, opt_view(a.1), a.2@),
            ),
            st: self.st,
            name: qname_view(self.name),
            attr: qname_view(self.attr),
            delim: self.delim,
            level: self.level as int,
        }
    }
}

/// Splits a qualified name at its first colon.
fn parse_qname(b: &Vec<char>) -> (r: (Option<String>, String))
    ensures
        opt_view(r.0) == spec_qname(b@).0,
        r.1@ == spec_qname(b@).1,
{
    let n = b.len();
    let mut i: usize = 0;
    while i < n
        invariant
            i <= n,
            n == b@.len(),
            forall|t: int| 0 <= t < i ==> b@[t] != ':',
        decreases n - i,
    {
        if b[i] == ':' {
            proof {
                crate::codec::lemma_find_char_at(b@, ':', i as int);
            }
            let prefix = crate::stdx::chars_range_to_string(b, 0, i);
            let local = crate::stdx::chars_range_to_string(b, i + 1, n);
            proof {
                assert(b@.subrange(0, i as int) =~= b@.take(i as int));
                assert(b@.subrange(i + 1, n as int) =~= b@.skip(i + 1));
            }
            return (Some(prefix), local);
        }
        i = i + 1;
    }
    proof {
        crate::codec::lemma_find_char_absent(b@, ':');
    }
    (None, chars_to_string(b))
}

/// Unescapes a scanned character buffer.
fn unescape_chars(b: &Vec<char>) -> (r: Result<String, crate::codec::CodecError>)
    ensures
        match spec_unescape(b@) {
            Some(t) => r matches Ok(s) && s@ == t,
            None => r is Err,
        },
{
    let s = chars_to_string(b);
    crate::codec::unescape(s.as_str())
}

impl Parser {
    /// Returns a new `Parser` reading the given bytes, with the standard
    /// `xml` and `xmlns` prefixes pre-bound in the root namespace frame.
    pub fn new(data: Vec<u8>) -> (r: Parser)
        requires
            data@.len() < 0xFFFF_FFFF,
        ensures
            r@ == initial_model(data@),
            parser_inv(r@),
    {
        let mut ns = NsStack::new();
        ns.push_frame();
        ns.bind("xml".to_owned(), "http://www.w3.org/XML/1998/namespace".to_owned());
        ns.bind("xmlns".to_owned(), "http://www.w3.org/2000/xmlns/".to_owned());
        let r = Parser {
            line: 1,
            col: 0,
            has_error: false,
            data,
            pos: 0,
            buf: Vec::new(),
            namespaces: ns,
            attributes: Vec::new(),
            st: State::OutsideTag,
            name: None,
            attr: None,
            delim: None,
            level: 0,
        };
        proof {
            assert(r@ =~~= initial_model(data@));
        }
        r
    }

    /// The lexical error raised at the current position.
    fn error(&self, kind: ParserErrorKind) -> (r: ParserError)
        ensures
            r == (ParserError { line: self@.line, col: self@.col, kind }),
    {
        ParserError { line: self.line, col: self.col, kind }
    }

    /// Takes the accumulated character buffer, leaving it empty.
    fn take_buf(&mut self) -> (r: Vec<char>)
        ensures
            r@ == old(self)@.buf,
            final(self)@ == (ParserModel { buf: Seq::empty(), ..old(self)@ }),
    {
        let r = self.buf.split_off(0);
        proof {
            assert(r@ =~= old(self)@.buf);
            assert(self@ =~~= (ParserModel { buf: Seq::empty(), ..old(self)@ }));
        }
        r
    }

    /// Resolves a possibly prefixed name against the current stack; `None`
    /// answers an unbound prefix.
    fn resolve_qname(&self, prefix: &Option<String>) -> (r: Option<Option<String>>)
        ensures
            match ns_of_qname(self@.namespaces, opt_view(*prefix)) {
                None => r is None,
                Some(x) => r matches Some(o) && opt_view(o) == x,
            },
    {
        proof {
            reveal_strlit("");
            assert(""@ =~= Seq::<char>::empty());
        }
        match prefix {
            None => {
                match self.namespaces.resolve("") {
                    Resolution::Namespace(u) => Some(Some(u)),
                    _ => Some(None),
                }
            },
            Some(p) => {
                match self.namespaces.resolve(p.as_str()) {
                    Resolution::Namespace(u) => Some(Some(u)),
                    Resolution::NoNamespace => Some(None),
                    Resolution::Missing => None,
                }
            },
        }
    }

    // Outside any tag or other construct; `<` opens a tag, flushing pending
    // character data.
    fn outside_tag(&mut self, c: char) -> (r: Result<Option<Event>, ParserError>)
        requires
            pos_inv(old(self)@),
            state_inv(old(self)@),
            old(self)@.st == State::OutsideTag,
        ensures
            pos_inv(final(self)@),
            r matches Ok(_) ==> state_inv(final(self)@),
            steps_to(old(self)@, c, final(self)@, r),
    {
        if c == '<' {
            if self.buf.len() == 0 {
                self.st = State::TagOpened;
                proof {
                    assert(self@ =~~= step(old(self)@, c).0);
                }
                Ok(None)
            } else {
                self.st = State::TagOpened;
                let b = self.take_buf();
                proof {
                    assert(self@ =~~= step(old(self)@, c).0);
                }
                match unescape_chars(&b) {
                    Ok(s) => Ok(Some(Event::Characters(s))),
                    Err(_) => Err(self.error(ParserErrorKind::InvalidEntity)),
                }
            }
        } else {
            self.buf.push(c);
            proof {
                assert(self@ =~~= step(old(self)@, c).0);
            }
            Ok(None)
        }
    }

    // The character following `<` picks the construct.
    fn tag_opened(&mut self, c: char) -> (r: Result<Option<Event>, ParserError>)
        requires
            pos_inv(old(self)@),
            state_inv(old(self)@),
            old(self)@.st == State::TagOpened,
        ensures
            pos_inv(final(self)@),
            r matches Ok(_) ==> state_inv(final(self)@),
            steps_to(old(self)@, c, final(self)@, r),
    {
        if c == '?' {
            self.st = State::InProcessingInstructions;
        } else if c == '!' {
            self.st = State::InExclamationMark;
        } else if c == '/' {
            self.st = State::InCloseTagName;
        } else {
            self.buf.push(c);
            self.st = State::InTagName;
        }
        proof {
            assert(self@ =~~= step(old(self)@, c).0);
        }
        Ok(None)
    }

    // Inside a processing instruction; `?>` closes it.
    fn in_processing_instructions(&mut self, c: char) -> (r: Result<Option<Event>, ParserError>)
        requires
            pos_inv(old(self)@),
            state_inv(old(self)@),
            old(self)@.st == State::InProcessingInstructions,
        ensures
            pos_inv(final(self)@),
            r matches Ok(_) ==> state_inv(final(self)@),
            steps_to(old(self)@, c, final(self)@, r),
    {
        if c == '?' {
            self.level = 1;
            self.buf.push(c);
            proof {
                assert(self@ =~~= step(old(self)@, c).0);
            }
            Ok(None)
        } else if c == '>' && self.level == 1 {
            self.level = 0;
            self.st = State::OutsideTag;
            let _ = self.buf.pop();
            let b = self.take_buf();
            proof {
                assert(b@ =~= old(self)@.buf.drop_last());
                assert(self@ =~~= step(old(self)@, c).0);
            }
            Ok(Some(Event::PI(chars_to_string(&b))))
        } else {
            self.buf.push(c);
            proof {
                assert(self@ =~~= step(old(self)@, c).0);
            }
            Ok(None)
        }
    }

    // Inside an opening tag's name.
    fn in_tag_name(&mut self, c: char) -> (r: Result<Option<Event>, ParserError>)
        requires
            pos_inv(old(self)@),
            state_inv(old(self)@),
            old(self)@.st == State::InTagName,
        ensures
            pos_inv(final(self)@),
            r matches Ok(_) ==> state_inv(final(self)@),
            steps_to(old(self)@, c, final(self)@, r),
    {
        if c == '/' || c == '>' {
            let b = self.take_buf();
            let (prefix, name) = parse_qname(&b);
            let ns = match self.resolve_qname(&prefix) {
                Some(ns) => ns,
                None => {
                    let e = self.error(ParserErrorKind::UnboundNsPrefixInTagName);
                    proof {
                        assert(self@ =~~= step(old(self)@, c).0);
                    }
                    return Err(e);
                },
            };
            self.namespaces.push_frame();
            if c == '/' {
                self.name = Some((clone_opt_string(&prefix), name.clone()));
                self.st = State::ExpectClose;
            } else {
                self.st = State::OutsideTag;
            }
            proof {
                assert(self@ =~~= step(old(self)@, c).0);
            }
            Ok(
                Some(
                    Event::ElementStart(
                        StartTag { name, ns, prefix, attributes: AttrMap::new() },
                    ),
                ),
            )
        } else if c == ' ' || c == '\t' || c == '\r' || c == '\n' {
            self.namespaces.push_frame();
            let b = self.take_buf();
            self.name = Some(parse_qname(&b));
            self.st = State::InTag;
            proof {
                assert(self@ =~~= step(old(self)@, c).0);
            }
            Ok(None)
        } else {
            self.buf.push(c);
            proof {
                assert(self@ =~~= step(old(self)@, c).0);
            }
            Ok(None)
        }
    }

    // Inside a closing tag's name.
    fn in_close_tag_name(&mut self, c: char) -> (r: Result<Option<Event>, ParserError>)
        requires
            pos_inv(old(self)@),
            state_inv(old(self)@),
            old(self)@.st == State::InCloseTagName,
        ensures
            pos_inv(final(self)@),
            r matches Ok(_) ==> state_inv(final(self)@),
            steps_to(old(self)@, c, final(self)@, r),
    {
        if c == ' ' || c == '\t' || c == '\r' || c == '\n' || c == '>' {
            let b = self.take_buf();
            let (prefix, name) = parse_qname(&b);
            match self.resolve_qname(&prefix) {
                None => {
                    let e = self.error(ParserErrorKind::UnboundNsPrefixInTagName);
                    proof {
                        assert(self@ =~~= step(old(self)@, c).0);
                    }
                    Err(e)
                },
                Some(ns) => {
                    self.namespaces.pop_frame();
                    self.st = if c == '>' {
                        State::OutsideTag
                    } else {
                        State::ExpectSpaceOrClose
                    };
                    proof {
                        assert(self@ =~~= step(old(self)@, c).0);
                    }
                    Ok(Some(Event::ElementEnd(EndTag { name, ns, prefix })))
                },
            }
        } else {
            self.buf.push(c);
            proof {
                assert(self@ =~~= step(old(self)@, c).0);
            }
            Ok(None)
        }
    }

    // Inside a tag, between attributes; `/` or `>` completes the start tag,
    // resolving the scanned attributes against the now-complete frame.
    fn in_tag(&mut self, c: char) -> (r: Result<Option<Event>, ParserError>)
        requires
            pos_inv(old(self)@),
            state_inv(old(self)@),
            old(self)@.st == State::InTag,
        ensures
            pos_inv(final(self)@),
            r matches Ok(_) ==> state_inv(final(self)@),
            steps_to(old(self)@, c, final(self)@, r),
    {
        if c == '/' || c == '>' {
            let raw = self.attributes.split_off(0);
            let pn = self.name.take();
            let (prefix, name) = match pn {
                Some(p) => p,
                None => {
                    proof {
                        assert(false);
                    }
                    vstd::pervasive::unreached()
                },
            };
            proof {
                assert(self.attributes@ =~= Seq::<(String, Option<String>, String)>::empty());
                assert(self@ =~~= (ParserModel {
                    attributes: Seq::empty(),
                    name: None,
                    ..old(self)@
                }));
            }
            let ghost mid = self@;
            let ns = match self.resolve_qname(&prefix) {
                Some(ns) => ns,
                None => {
                    let e = self.error(ParserErrorKind::UnboundNsPrefixInTagName);
                    proof {
                        assert(self@ =~~= step(old(self)@, c).0);
                    }
                    return Err(e);
                },
            };
            let ghost frames = self@.namespaces;
            let ghost rawm = raw@.map_values(
                |a: (String, Option<String>, String)| (a.0@, opt_view(a.1), a.2@),
            );
            let mut attributes_map = AttrMap::new();
            proof {
                assert(rawm == old(self)@.attributes);
                assert(rawm.skip(0) =~= rawm);
            }
            let mut k: usize = 0;
            while k < raw.len()
                invariant
                    k <= raw@.len(),
                    c == '/' || c == '>',
                    pos_inv(self@),
                    self@ == mid,
                    mid == (ParserModel { attributes: Seq::empty(), name: None, ..old(self)@ }),
                    old(self)@.st == State::InTag,
                    old(self)@.name == Some((opt_view(prefix), name@)),
                    rawm == old(self)@.attributes,
                    ns_of_qname(frames, opt_view(prefix)) == Some(opt_view(ns)),
                    frames == mid.namespaces,
                    rawm == raw@.map_values(
                        |a: (String, Option<String>, String)| (a.0@, opt_view(a.1), a.2@),
                    ),
                    attributes_map.wf(),
                    resolve_attrs(frames, rawm, Seq::empty()) == resolve_attrs(
                        frames,
                        rawm.skip(k as int),
                        attributes_map@,
                    ),
                decreases raw@.len() - k,
            {
                let a = &raw[k];
                let name_a = a.0.clone();
                let value_a = a.2.clone();
                proof {
                    assert(rawm[k as int] == (a.0@, opt_view(a.1), a.2@));
                    assert(rawm.skip(k as int)[0] == rawm[k as int]);
                    assert(rawm.skip(k as int).skip(1) =~= rawm.skip(k + 1));
                }
                let nsa: Option<String> = match &a.1 {
                    None => None,
                    Some(p) => {
                        match self.namespaces.resolve(p.as_str()) {
                            Resolution::Namespace(u) => Some(u),
                            Resolution::NoNamespace => None,
                            Resolution::Missing => {
                                let e = self.error(
                                    ParserErrorKind::UnboundNsPrefixInAttributeName,
                                );
                                proof {
                                    assert(resolve_attrs(frames, rawm, Seq::empty()) == Err::<
                                        Seq<((Seq<char>, Option<Seq<char>>), Seq<char>)>,
                                        ParserErrorKind,
                                    >(ParserErrorKind::UnboundNsPrefixInAttributeName));
                                    assert(self@ =~~= step(old(self)@, c).0);
                                }
                                return Err(e);
                            },
                        }
                    },
                };
                let ghost acc0 = attributes_map@;
                let dup = attributes_map.insert((name_a, nsa), value_a);
                match dup {
                    Some(_) => {
                        let e = self.error(ParserErrorKind::DuplicateAttribute);
                        proof {
                            assert(resolve_attrs(frames, rawm, Seq::empty()) == Err::<
                                Seq<((Seq<char>, Option<Seq<char>>), Seq<char>)>,
                                ParserErrorKind,
                            >(ParserErrorKind::DuplicateAttribute));
                            assert(self@ =~~= step(old(self)@, c).0);
                        }
                        return Err(e);
                    },
                    None => {},
                }
                k = k + 1;
            }
            proof {
                assert(rawm.skip(raw@.len() as int) =~= Seq::<(
                    Seq<char>,
                    Option<Seq<char>>,
                    Seq<char>,
                )>::empty());
                assert(resolve_attrs(frames, rawm, Seq::empty()) == Ok::<
                    Seq<((Seq<char>, Option<Seq<char>>), Seq<char>)>,
                    ParserErrorKind,
                >(attributes_map@));
            }
            if c == '/' {
                self.name = Some((clone_opt_string(&prefix), name.clone()));
                self.st = State::ExpectClose;
            } else {
                self.st = State::OutsideTag;
            }
            proof {
                assert(self@ =~~= step(old(self)@, c).0);
            }
            Ok(Some(Event::ElementStart(StartTag { name, ns, prefix, attributes: attributes_map })))
        } else if c == ' ' || c == '\t' || c == '\r' || c == '\n' {
            proof {
                assert(self@ =~~= step(old(self)@, c).0);
            }
            Ok(None)
        } else {
            self.buf.push(c);
            self.st = State::InAttrName;
            proof {
                assert(self@ =~~= step(old(self)@, c).0);
            }
            Ok(None)
        }
    }

    // Inside an attribute name; `=` moves on to the value.
    fn in_attr_name(&mut self, c: char) -> (r: Result<Option<Event>, ParserError>)
        requires
            pos_inv(old(self)@),
            state_inv(old(self)@),
            old(self)@.st == State::InAttrName,
        ensures
            pos_inv(final(self)@),
            r matches Ok(_) ==> state_inv(final(self)@),
            steps_to(old(self)@, c, final(self)@, r),
    {
        if c == '=' {
            self.level = 0;
            let b = self.take_buf();
            self.attr = Some(parse_qname(&b));
            self.st = State::ExpectDelimiter;
            proof {
                assert(self@ =~~= step(old(self)@, c).0);
            }
            Ok(None)
        } else if c == ' ' || c == '\t' || c == '\r' || c == '\n' {
            self.level = 1;
            proof {
                assert(self@ =~~= step(old(self)@, c).0);
            }
            Ok(None)
        } else if self.level == 0 {
            self.buf.push(c);
            proof {
                assert(self@ =~~= step(old(self)@, c).0);
            }
            Ok(None)
        } else {
            Err(self.error(ParserErrorKind::SpaceInAttributeName))
        }
    }

    // Inside an attribute value, until the matching delimiter; `xmlns`
    // attributes bind into the innermost namespace frame at once.
    fn in_attr_value(&mut self, c: char) -> (r: Result<Option<Event>, ParserError>)
        requires
            pos_inv(old(self)@),
            state_inv(old(self)@),
            old(self)@.st == State::InAttrValue,
        ensures
            pos_inv(final(self)@),
            r matches Ok(_) ==> state_inv(final(self)@),
            steps_to(old(self)@, c, final(self)@, r),
    {
        let d = match self.delim {
            Some(d) => d,
            None => {
                proof {
                    assert(false);
                }
                vstd::pervasive::unreached()
            },
        };
        if c == d {
            self.delim = None;
            self.st = State::InTag;
            let pa = self.attr.take();
            let (prefix, name) = match pa {
                Some(p) => p,
                None => {
                    proof {
                        assert(false);
                    }
                    vstd::pervasive::unreached()
                },
            };
            let b = self.take_buf();
            match unescape_chars(&b) {
                Err(_) => {
                    let e = self.error(ParserErrorKind::InvalidEntity);
                    proof {
                        assert(self@ =~~= step(old(self)@, c).0);
                    }
                    Err(e)
                },
                Ok(value) => {
                    proof {
                        reveal_strlit("xmlns");
                        assert("xmlns"@ =~= xmlns_chars());
                    }
                    let is_default_decl = match &prefix {
                        None => str_eq(name.as_str(), "xmlns"),
                        Some(_) => false,
                    };
                    let is_prefixed_decl = match &prefix {
                        Some(p) => str_eq(p.as_str(), "xmlns"),
                        None => false,
                    };
                    if is_default_decl {
                        self.namespaces.bind(String::new(), value.clone());
                    } else if is_prefixed_decl {
                        self.namespaces.bind(name.clone(), value.clone());
                    }
                    self.attributes.push((name, prefix, value));
                    proof {
                        assert(self@.attributes =~= old(self)@.attributes.push(
                            (self.attributes@.last().0@, opt_view(self.attributes@.last().1),
                            self.attributes@.last().2@),
                        ));
                        assert(self@ =~~= step(old(self)@, c).0);
                    }
                    Ok(None)
                },
            }
        } else {
            self.buf.push(c);
            proof {
                assert(self@ =~~= step(old(self)@, c).0);
            }
            Ok(None)
        }
    }

    // Looking for the quote that opens an attribute value.
    fn expect_delimiter(&mut self, c: char) -> (r: Result<Option<Event>, ParserError>)
        requires
            pos_inv(old(self)@),
            state_inv(old(self)@),
            old(self)@.st == State::ExpectDelimiter,
        ensures
            pos_inv(final(self)@),
            r matches Ok(_) ==> state_inv(final(self)@),
            steps_to(old(self)@, c, final(self)@, r),
    {
        if c == '"' || c == '\'' {
            self.delim = Some(c);
            self.st = State::InAttrValue;
            proof {
                assert(self@ =~~= step(old(self)@, c).0);
            }
            Ok(None)
        } else if c == ' ' || c == '\t' || c == '\r' || c == '\n' {
            Ok(None)
        } else {
            Err(self.error(ParserErrorKind::UndelimitedAttribute))
        }
    }

    // Expecting the `>` that closes an empty-element tag.
    fn expect_close(&mut self, c: char) -> (r: Result<Option<Event>, ParserError>)
        requires
            pos_inv(old(self)@),
            state_inv(old(self)@),
            old(self)@.st == State::ExpectClose,
        ensures
            pos_inv(final(self)@),
            r matches Ok(_) ==> state_inv(final(self)@),
            steps_to(old(self)@, c, final(self)@, r),
    {
        if c == '>' {
            self.st = State::OutsideTag;
            let pn = self.name.take();
            let (prefix, name) = match pn {
                Some(p) => p,
                None => {
                    proof {
                        assert(false);
                    }
                    vstd::pervasive::unreached()
                },
            };
            match self.resolve_qname(&prefix) {
                None => {
                    let e = self.error(ParserErrorKind::UnboundNsPrefixInTagName);
                    proof {
                        assert(self@ =~~= step(old(self)@, c).0);
                    }
                    Err(e)
                },
                Some(ns) => {
                    self.namespaces.pop_frame();
                    proof {
                        assert(self@ =~~= step(old(self)@, c).0);
                    }
                    Ok(Some(Event::ElementEnd(EndTag { name, ns, prefix })))
                },
            }
        } else {
            Err(self.error(ParserErrorKind::ExpectedTagClose))
        }
    }

    // Expecting whitespace or the `>` that closes a close tag.
    fn expect_space_or_close(&mut self, c: char) -> (r: Result<Option<Event>, ParserError>)
        requires
            pos_inv(old(self)@),
            state_inv(old(self)@),
            old(self)@.st == State::ExpectSpaceOrClose,
        ensures
            pos_inv(final(self)@),
            r matches Ok(_) ==> state_inv(final(self)@),
            steps_to(old(self)@, c, final(self)@, r),
    {
        if c == ' ' || c == '\t' || c == '\r' || c == '\n' {
            Ok(None)
        } else if c == '>' {
            self.st = State::OutsideTag;
            proof {
                assert(self@ =~~= step(old(self)@, c).0);
            }
            Ok(None)
        } else {
            Err(self.error(ParserErrorKind::ExpectedLwsOrTagClose))
        }
    }

    // After `<!`: decide between comment, CDATA and DOCTYPE.
    fn in_exclamation_mark(&mut self, c: char) -> (r: Result<Option<Event>, ParserError>)
        requires
            pos_inv(old(self)@),
            state_inv(old(self)@),
            old(self)@.st == State::InExclamationMark,
        ensures
            pos_inv(final(self)@),
            r matches Ok(_) ==> state_inv(final(self)@),
            steps_to(old(self)@, c, final(self)@, r),
    {
        if c == '-' {
            self.st = State::InCommentOpening;
        } else if c == '[' {
            self.st = State::InCDATAOpening;
        } else if c == 'D' {
            self.st = State::InDoctype;
        } else {
            return Err(self.error(ParserErrorKind::MalformedXml));
        }
        proof {
            assert(self@ =~~= step(old(self)@, c).0);
        }
        Ok(None)
    }

    // Matching the literal `CDATA[` that opens a CDATA section.
    fn in_cdata_opening(&mut self, c: char) -> (r: Result<Option<Event>, ParserError>)
        requires
            pos_inv(old(self)@),
            state_inv(old(self)@),
            old(self)@.st == State::InCDATAOpening,
        ensures
            pos_inv(final(self)@),
            r matches Ok(_) ==> state_inv(final(self)@),
            steps_to(old(self)@, c, final(self)@, r),
    {
        let expected: char = if self.level == 0 {
            'C'
        } else if self.level == 1 {
            'D'
        } else if self.level == 2 {
            'A'
        } else if self.level == 3 {
            'T'
        } else if self.level == 4 {
            'A'
        } else {
            '['
        };
        proof {
            assert(expected == seq!['C', 'D', 'A', 'T', 'A', '['][self@.level]);
        }
        if c == expected {
            self.level = self.level + 1;
            if self.level == 6 {
                self.level = 0;
                self.st = State::InCDATA;
            }
            proof {
                assert(self@ =~~= step(old(self)@, c).0);
            }
            Ok(None)
        } else {
            Err(self.error(ParserErrorKind::InvalidCdataStart))
        }
    }

    // Inside CDATA; at least two `]` followed by `>` close the section.
    fn in_cdata(&mut self, c: char) -> (r: Result<Option<Event>, ParserError>)
        requires
            pos_inv(old(self)@),
            state_inv(old(self)@),
            old(self)@.st == State::InCDATA,
        ensures
            pos_inv(final(self)@),
            r matches Ok(_) ==> state_inv(final(self)@),
            steps_to(old(self)@, c, final(self)@, r),
    {
        if c == ']' {
            self.buf.push(c);
            if self.level < 2 {
                self.level = self.level + 1;
            }
            proof {
                assert(self@ =~~= step(old(self)@, c).0);
            }
            Ok(None)
        } else if c == '>' && self.level >= 2 {
            self.st = State::OutsideTag;
            self.level = 0;
            let len = self.buf.len();
            self.buf.truncate(len - 2);
            let b = self.take_buf();
            proof {
                assert(b@ =~= old(self)@.buf.take(old(self)@.buf.len() - 2));
                assert(self@ =~~= step(old(self)@, c).0);
            }
            Ok(Some(Event::CDATA(chars_to_string(&b))))
        } else {
            self.buf.push(c);
            self.level = 0;
            proof {
                assert(self@ =~~= step(old(self)@, c).0);
            }
            Ok(None)
        }
    }

    // The second `-` that opens a comment.
    fn in_comment_opening(&mut self, c: char) -> (r: Result<Option<Event>, ParserError>)
        requires
            pos_inv(old(self)@),
            state_inv(old(self)@),
            old(self)@.st == State::InCommentOpening,
        ensures
            pos_inv(final(self)@),
            r matches Ok(_) ==> state_inv(final(self)@),
            steps_to(old(self)@, c, final(self)@, r),
    {
        if c == '-' {
            self.st = State::InComment1;
            self.level = 0;
            proof {
                assert(self@ =~~= step(old(self)@, c).0);
            }
            Ok(None)
        } else {
            Err(self.error(ParserErrorKind::InvalidCommentStart))
        }
    }

    // Inside a comment; two consecutive `-` arm the closing.
    fn in_comment1(&mut self, c: char) -> (r: Result<Option<Event>, ParserError>)
        requires
            pos_inv(old(self)@),
            state_inv(old(self)@),
            old(self)@.st == State::InComment1,
        ensures
            pos_inv(final(self)@),
            r matches Ok(_) ==> state_inv(final(self)@),
            steps_to(old(self)@, c, final(self)@, r),
    {
        if c == '-' {
            self.level = self.level + 1;
        } else {
            self.level = 0;
        }
        if self.level == 2 {
            self.level = 0;
            self.st = State::InComment2;
        }
        self.buf.push(c);
        proof {
            assert(self@ =~~= step(old(self)@, c).0);
        }
        Ok(None)
    }

    // After `--` inside a comment: only `>` may follow.
    fn in_comment2(&mut self, c: char) -> (r: Result<Option<Event>, ParserError>)
        requires
            pos_inv(old(self)@),
            state_inv(old(self)@),
            old(self)@.st == State::InComment2,
        ensures
            pos_inv(final(self)@),
            r matches Ok(_) ==> state_inv(final(self)@),
            steps_to(old(self)@, c, final(self)@, r),
    {
        if c != '>' {
            Err(self.error(ParserErrorKind::InvalidCommentContent))
        } else {
            self.st = State::OutsideTag;
            let len = self.buf.len();
            self.buf.truncate(len - 2);
            let b = self.take_buf();
            proof {
                assert(b@ =~= old(self)@.buf.take(old(self)@.buf.len() - 2));
                assert(self@ =~~= step(old(self)@, c).0);
            }
            Ok(Some(Event::Comment(chars_to_string(&b))))
        }
    }

    // Matching the literal `OCTYPE`, a space, then skipping to `>`.
    fn in_doctype(&mut self, c: char) -> (r: Result<Option<Event>, ParserError>)
        requires
            pos_inv(old(self)@),
            state_inv(old(self)@),
            old(self)@.st == State::InDoctype,
        ensures
            pos_inv(final(self)@),
            r matches Ok(_) ==> state_inv(final(self)@),
            steps_to(old(self)@, c, final(self)@, r),
    {
        if self.level <= 5 {
            let expected: char = if self.level == 0 {
                'O'
            } else if self.level == 1 {
                'C'
            } else if self.level == 2 {
                'T'
            } else if self.level == 3 {
                'Y'
            } else if self.level == 4 {
                'P'
            } else {
                'E'
            };
            proof {
                assert(expected == seq!['O', 'C', 'T', 'Y', 'P', 'E'][self@.level]);
            }
            if c == expected {
                self.level = self.level + 1;
                proof {
                    assert(self@ =~~= step(old(self)@, c).0);
                }
                Ok(None)
            } else {
                Err(self.error(ParserErrorKind::InvalidDoctype))
            }
        } else if self.level == 6 {
            if c == ' ' || c == '\t' || c == '\r' || c == '\n' {
                self.level = 7;
                proof {
                    assert(self@ =~~= step(old(self)@, c).0);
                }
                Ok(None)
            } else {
                Err(self.error(ParserErrorKind::InvalidDoctype))
            }
        } else if c == '>' {
            self.level = 0;
            self.st = State::OutsideTag;
            proof {
                assert(self@ =~~= step(old(self)@, c).0);
            }
            Ok(None)
        } else {
            Ok(None)
        }
    }

    // One transition of the state machine on one character.
    fn parse_character(&mut self, c: char) -> (r: Result<Option<Event>, ParserError>)
        requires
            pos_inv(old(self)@),
            state_inv(old(self)@),
        ensures
            pos_inv(final(self)@),
            r matches Ok(_) ==> state_inv(final(self)@),
            steps_to(old(self)@, c, final(self)@, r),
    {
        match self.st {
            State::OutsideTag => self.outside_tag(c),
            State::TagOpened => self.tag_opened(c),
            State::InProcessingInstructions => self.in_processing_instructions(c),
            State::InTagName => self.in_tag_name(c),
            State::InCloseTagName => self.in_close_tag_name(c),
            State::InTag => self.in_tag(c),
            State::InAttrName => self.in_attr_name(c),
            State::InAttrValue => self.in_attr_value(c),
            State::ExpectDelimiter => self.expect_delimiter(c),
            State::ExpectClose => self.expect_close(c),
            State::ExpectSpaceOrClose => self.expect_space_or_close(c),
            State::InExclamationMark => self.in_exclamation_mark(c),
            State::InCDATAOpening => self.in_cdata_opening(c),
            State::InCDATA => self.in_cdata(c),
            State::InCommentOpening => self.in_comment_opening(c),
            State::InComment1 => self.in_comment1(c),
            State::InComment2 => self.in_comment2(c),
            State::InDoctype => self.in_doctype(c),
        }
    }

    /// Pulls the next event: `None` once the input is exhausted or after an
    /// error has been produced; otherwise the next event or the error that
    /// permanently poisons this parser.
    pub fn next(&mut self) -> (r: Option<Result<Event, ParserError>>)
        requires
            parser_inv(old(self)@),
        ensures
            parser_inv(final(self)@),
            final(self)@ == spec_pull(old(self)@).0,
            match spec_pull(old(self)@).1 {
                None => r is None,
                Some(Ok(em)) => r matches Some(x) && x matches Ok(ev) && ev@ == em,
                Some(Err(pe)) => r matches Some(x) && x matches Err(e) && e == pe,
            },
    {
        if self.has_error {
            return None;
        }
        while self.pos < self.data.len()
            invariant
                pos_inv(self@),
                state_inv(self@),
                !self@.has_error,
                spec_pull(old(self)@) == spec_pull(self@),
            decreases self@.input.len() - self@.pos,
        {
            let ghost m0 = self@;
            let b = self.data[self.pos];
            let c = b as char;
            self.pos = self.pos + 1;
            if c == '\n' {
                self.line = self.line + 1;
                self.col = 0;
            } else {
                self.col = self.col + 1;
            }
            let ghost m1 = self@;
            proof {
                assert(m1 =~~= (ParserModel {
                    pos: m0.pos + 1,
                    line: if c == '\n' {
                        (m0.line + 1) as u32
                    } else {
                        m0.line
                    },
                    col: if c == '\n' {
                        0u32
                    } else {
                        (m0.col + 1) as u32
                    },
                    ..m0
                }));
                assert(c == (m0.input[m0.pos] as char));
            }
            let res = self.parse_character(c);
            proof {
                lemma_step_io(m1, c);
            }
            match res {
                Ok(opt) => match opt {
                    None => {
                        proof {
                            assert(spec_pull(m0) == spec_pull(self@));
                        }
                    },
                    Some(ev) => {
                        proof {
                            assert(spec_pull(m0) == (self@, Some(Ok::<EventModel, ParserError>(ev@))));
                        }
                        return Some(Ok(ev));
                    },
                },
                Err(e) => {
                    self.has_error = true;
                    proof {
                        assert(spec_pull(m0) == (self@, Some(Err::<EventModel, ParserError>(e))));
                    }
                    return Some(Err(e));
                },
            }
        }
        None
    }
}

} // verus!
