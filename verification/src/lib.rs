//! Runtime shared-library dependencies of a compiled binary, as reported by
//! `dpkg-shlibdeps`.
//!
//! The analyzer inspects a binary and prints, among other lines, one of the
//! form `shlibs:Depends=<specifier>, <specifier>, ...`. This library holds
//! both sides of that exchange: [`invoker`] says how the analyzer is to be
//! called and what the outcome of a call amounts to, and [`parser`] reads its
//! output into the list of specifiers, without those of the compiler's
//! runtime support library. Nothing here touches the file system or starts a
//! process: the caller runs the analyzer and hands over what came of it.
//!
//! The functions are verified against contracts that state their results in
//! full. [`bytes`], [`text`] and [`utf8`] hold what the parser is built from;
//! the one thing taken on trust is the standard library's UTF-8 check, in
//! [`utf8`].

pub mod bytes;
pub mod error;
pub mod invoker;
pub mod parser;
pub mod text;
pub mod utf8;
