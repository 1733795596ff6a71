//! Turns the Chinese in flashcard text into dictionary links.
//!
//! A field is cut into runs of Chinese and other characters. A Chinese run
//! that is not yet linked becomes a Pleco lookup link whose characters carry
//! the colour class of their tone. Text that was linked before is left as it
//! is, so the transformation can be applied to a deck any number of times.
//!
//! [`plecoise`] transforms one field and [`plecoise_fields`] the delimited
//! fields of a note. Their steps can be had one by one: [`segment`] cuts a
//! text into runs, [`demote_annotated`] sets aside the runs that were linked
//! before, and [`annotate`] renders a run with what a [`Dictionary`] holds
//! for it.
//!
//! Every function is verified against a contract over sequences of
//! characters. The module `laws` states what holds of the transformation as
//! a whole: that it is idempotent, that it changes exactly the texts that
//! hold unlinked Chinese, that it keeps every character of its input in
//! place, and that it keeps the delimiters of a note.

pub mod annotate;
pub mod content;
pub mod deck;
pub mod dict;
pub mod field;
pub mod filter;
pub mod hanzi;
pub mod laws;
pub mod markup;
pub mod reading;
pub mod run;
pub mod sealed;
pub mod segment;
pub mod text;
pub mod transform;
pub mod words;

pub use annotate::annotate;
pub use deck::is_collection;
pub use dict::{Dictionary, Pronunciation, Tone};
pub use field::{plecoise_fields, FIELD_SPLIT_CHAR};
pub use filter::demote_annotated;
pub use hanzi::is_hanzi_char;
pub use markup::starts_with_boundary;
pub use reading::read_tones;
pub use run::Run;
pub use segment::{extend_runs, segment};
pub use transform::{plecoise, render_runs};
pub use words::words_to_learn;
