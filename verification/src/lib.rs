//! A streaming, namespace-aware XML library: a character-driven tokenizer
//! that turns bytes into lexical events, a tree builder that assembles those
//! events into an element tree, and a serializer that renders the tree back
//! to namespace-correct XML text.

pub mod attrmap;
pub mod builder;
pub mod codec;
pub mod element;
pub mod ns;
pub mod parser;
pub mod prefix_map;
pub mod render;
pub mod stdx;

pub use codec::{escape, unescape, CodecError};
pub use ns::{NsStack, Resolution};
pub use attrmap::AttrMap;
pub use prefix_map::PrefixMap;
pub use parser::{Event, Parser, ParserError, ParserErrorKind, StartTag, EndTag};
pub use element::{ChildElements, Element, Xml};
pub use render::{fmt_elem, RenderError};
pub use builder::{BuilderError, ElementBuilder};
