//! Extraction of semantic annotations from HTML.
//!
//! A document carries its mathematical and narrative structure in attributes
//! of a reserved namespace. While a markup parser builds the document, this
//! library keeps a node tree in which every node knows the bytes it will
//! occupy in the serialized document, runs a rule on every annotation, and
//! in the end hands out the narrative, the content and the facts it has
//! found, together with the serialized markup; or it fails, if anything at
//! all was wrong.
//!
//! The modules, from the ground up:
//!
//! - [`text`], [`markup`], [`attributes`]: bytes, escaping, attribute sets;
//! - [`dom`], [`ranges`], [`transitions`], [`tree`]: the node tree, its model,
//!   and the proof that ranges cut the markup of their nodes out of the document;
//! - [`uris`], [`resolve`]: identifiers and the resolution of references;
//! - [`keys`], [`queue`], [`getters`], [`rules`], [`dispatch`]: the rule table
//!   and the rules;
//! - [`terms`], [`open`], [`state`], [`close`]: what rules open, the state of an
//!   extraction, and what happens when a node closes;
//! - [`parser`], [`resources`], [`content`]: the extraction of a document, the
//!   framing of encoded resources, and lookup in what was found.

pub mod text;
pub mod markup;
pub mod attributes;
pub mod dom;
pub mod ranges;
pub mod transitions;
pub mod tree;
pub mod uris;
pub mod resolve;
pub mod paragraphs;
pub mod sections;
pub mod keys;
pub mod terms;
pub mod errors;
pub mod open;
pub mod state;
pub mod getters;
pub mod queue;
pub mod rules;
pub mod dispatch;
pub mod close;
pub mod resources;
pub mod parser;
pub mod content;
