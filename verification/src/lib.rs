//! Canonical text rendering for the syntax tree of a small declarative
//! script language.
//!
//! Two renderers live here. [`ast::Ast::render`] writes the top-level items
//! of a script back out as source text and decides where blank lines go
//! between them. [`parameter::Parameter::render`] writes one declaration
//! parameter, with its sigils and its default value, through an explicit
//! [`color::Color`].
//!
//! Both are pure functions of their arguments; every contract is stated over
//! the views of the data and proved.

pub mod ast;
pub mod color;
pub mod item;
pub mod parameter;
