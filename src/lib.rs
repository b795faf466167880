//! Publishing metadata for documents: slugs, dates and the other fields read
//! from front-matter and file names, plus duplicate checks and grouped views.

mod chars;
pub mod slug;
pub mod text;
pub mod date;
pub mod meta;
pub mod fields;
pub mod content;
pub mod order;
pub mod grouped;

pub use content::{Content, check_for_duplicate_slugs};
pub use date::{DateTime, extract_date_from_filename, try_to_parse_date};
pub use fields::{
    DateError, get_authors, get_date, get_description, get_slug, get_stream, get_tags, get_title,
};
pub use grouped::{GroupedContent, Kind};
pub use slug::slugify;
