//! A small markup parser that turns a text document into an owned tree of
//! elements, text runs and comments.
pub mod dom;
pub mod html;
pub mod lemmas;
