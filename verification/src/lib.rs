//! Finding duplicate files, and a few helpers for tidying up media folders.
//!
//! The heart of the crate is the duplicate finder. It takes the files that a
//! scan found ([`records`]), decides which of them the scan keeps
//! ([`filter`], [`size`]), groups them by name or by content ([`grouping`],
//! [`groups`], [`hasher`]), keeps the groups that hold duplicates
//! ([`resolver`]) and plans how all but one member of each group are moved
//! to an archive ([`confirm`], [`mover`], [`archive`]). [`config`] turns the
//! arguments of a run into settings.
//!
//! Nothing here touches the file system, the clock or the network. The
//! caller walks the tree, reads the files and moves them; the library takes
//! what the caller found and says what follows from it. Every function is
//! verified against its contract; the few calls into other crates, and into
//! parts of the standard library whose behaviour the verifier does not know,
//! are kept in small functions of their own, whose documentation says what
//! is taken on trust.
//!
//! Paths are text with `/` between the components ([`path`], [`order`],
//! [`sorting`]).
//!
//! Beside the duplicate finder stand the helpers of two small tools: reading
//! an edit decision list and writing subtitles ([`edl`], [`srt`], [`clip`]),
//! and the decisions around a text recognition service ([`ocr`]).

pub mod text;
pub mod decimal;
pub mod size;
pub mod path;
pub mod order;
pub mod sorting;
pub mod records;
pub mod filter;
pub mod groups;
pub mod grouping;
pub mod hasher;
pub mod resolver;
pub mod confirm;
pub mod archive;
pub mod mover;
pub mod config;
pub mod clip;
pub mod srt;
pub mod edl;
pub mod ocr;
