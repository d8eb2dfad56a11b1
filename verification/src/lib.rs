//! A codec for GVAS property-bag save files.
//!
//! - [`container`] strips the envelope around a property stream and inflates
//!   the payload.
//! - [`cursor`] reads little-endian numbers, length-prefixed texts and
//!   identifiers out of a byte buffer; [`le`] and [`text`] hold the numbers
//!   and the texts themselves.
//! - [`tree`] is the decoded form, [`format`] the layout of a stream as
//!   functions on byte sequences, [`registry`] the struct types of fixed
//!   layout.
//! - [`decode`], [`encode`] and [`document`] read and write a stream;
//!   [`compare`] holds equality of decoded values.
//! - [`roundtrip`], [`canonical`], [`decoded_form`] and [`prefix`] state what
//!   holds between reading and writing, and of streams that are cut short.
//! - [`mapper`] projects a document onto the records of [`models`];
//!   [`gvas_parser`] goes from the bytes of a file to the players, and
//!   [`graphql`] and [`state`] hold what a session serves.

pub mod canonical;
pub mod compare;
pub mod container;
pub mod cursor;
pub mod decode;
pub mod decoded_form;
pub mod document;
pub mod encode;
pub mod error;
pub mod format;
pub mod graphql;
pub mod gvas_parser;
pub mod le;
pub mod mapper;
pub mod models;
pub mod prefix;
pub mod registry;
pub mod roundtrip;
pub mod state;
pub mod text;
pub mod tree;
