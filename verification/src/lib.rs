//! A bidirectional codec for line-oriented, INI-like configuration text in
//! the freedesktop desktop-entry style: groups of `key=value` pairs with
//! typed values and locale-tagged keys.
//!
//! The read path parses raw text into an ordered document model; the write
//! path projects a structured value (records, tagged unions, sequences of
//! scalars) back onto the same line format.

pub mod chars;
pub mod laws;
pub mod model;
pub mod parse;
pub mod ser;

pub use chars::is_key_char;
pub use chars::spec_is_key_char;
pub use model::Comment;
pub use model::DesktopEntry;
pub use model::EntryMap;
pub use model::Key;
pub use model::Locale;
pub use model::Value;
pub use parse::Line;
pub use parse::ParseError;
pub use parse::escaped_chars;
pub use parse::parse_boolean;
pub use parse::parse_comment;
pub use parse::parse_desktop_entry;
pub use parse::parse_desktop_entry_keeping_comments;
pub use parse::parse_empty_line;
pub use parse::parse_end_of_line;
pub use parse::parse_entry;
pub use parse::parse_escaped_string;
pub use parse::parse_group_header;
pub use parse::parse_key;
pub use parse::parse_key_locale;
pub use parse::parse_key_part;
pub use parse::parse_line;
pub use parse::parse_local_string;
pub use parse::parse_numeric;
pub use parse::parse_string;
pub use parse::parse_value;
pub use ser::EntrySerializer;
pub use ser::Error;
pub use ser::HeaderMapSerializer;
pub use ser::HeaderSerializer;
pub use ser::Payload;
pub use ser::Scalar;
pub use ser::SectionSerializer;
pub use ser::Shape;
pub use ser::ValueSerializer;
pub use ser::emit_header;
pub use ser::emit_key;
pub use ser::emit_new_line;
pub use ser::serialize_document;
pub use ser::to_string;

