//! Incremental build orchestration for emoji fonts.
//!
//! The library holds the identity model of build items ([`emoji::Emoji`] with
//! its kinds and status), a content-hash cache that decides which items are
//! stale ([`changes::FileHashes`], with its digest in [`digest`] and its text
//! format in [`hexfmt`] and [`codepoints`]), the contract that output producers
//! implement ([`builder::EmojiBuilder`]), and the decisions of the build driver
//! ([`driver`] for the items of a batch, [`run`] for the steps of a run).
//! [`tables`] and [`image`] hold helpers that producers and loaders share.

pub mod emoji_status;
pub mod hexfmt;
pub mod codepoints;
pub mod emoji_kind;
pub mod emoji;
pub mod keyed;
pub mod digest;
pub mod changes;
pub mod builder;
pub mod driver;
pub mod tables;
pub mod image;
pub mod run;
