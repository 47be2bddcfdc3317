//! Shell-style glob matching over a filesystem tree, with the pieces around
//! it: a pattern compiler, a lazily resumable traversal engine, a grep-style
//! line matcher, text-encoding detection, filename checking, and book-name
//! parsing.

pub mod actions;
pub mod books;
pub mod checkname;
pub mod grep;
pub mod matcher;
pub mod pattern;
pub mod strutil;
pub mod textenc;
pub mod textfmt;
pub mod traverse;
