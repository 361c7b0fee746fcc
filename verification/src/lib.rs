//! Expands the links of the chapters of a book.
//!
//! A link is written `{{#kind arguments}}`. It gives way to a file (`include`), to a Rust file of
//! which a part is shown (`rustdoc_include`), to a file in a code block that can be run
//! (`playground`), or to nothing where it sets the title of the chapter (`title`). A backslash
//! before the braces keeps a link as it is.
//!
//! [`link`] finds the links of a text, and [`link_type`] and [`range`] read their arguments.
//! [`render`] says what a link gives way to, and which file has to be read for it. [`expand`]
//! replaces all the links of a text and of the files that come in, and [`preprocessor`] does so for
//! a chapter. No file is read here: whoever calls reads the files that are asked for, and hands in
//! what they hold.
//!
//! What holds of all this in general is stated in [`text_laws`], [`argument_laws`], [`link_laws`],
//! [`render_laws`], [`step_laws`], [`expansion_laws`] and [`request_laws`].
pub mod argument_laws;
pub mod expand;
pub mod expansion_laws;
pub mod link;
pub mod link_laws;
pub mod link_type;
pub mod path;
pub mod preprocessor;
pub mod range;
pub mod render;
pub mod render_laws;
pub mod request_laws;
pub mod step_laws;
pub mod text;
pub mod text_laws;
