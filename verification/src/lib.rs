//! Decoder for single lines of the IRC wire protocol.
//!
//! One already-delimited line of text, terminated by a carriage return, is
//! decoded into a [`Message`]: an optional sender [`Prefix`], a [`Command`]
//! (named or numeric), and an ordered list of parameters.  Decoding is total:
//! every input yields either a message or a [`ParserError`] that says whether
//! the line was cut short (`Incomplete`) or structurally invalid (`Malformed`).

mod error;
mod laws;
mod message;
mod model;
mod parse;
mod scan;

pub use error::ErrorKind;
pub use error::ParserError;
pub use laws::lemma_command_classification;
pub use laws::lemma_decode_with_trailing;
pub use laws::lemma_decode_without_trailing;
pub use laws::lemma_prefix_round_trip;
pub use laws::line_with_trailing;
pub use laws::line_without_trailing;
pub use laws::mids_tokens;
pub use message::Command;
pub use message::Message;
pub use message::Prefix;
pub use message::dec_str;
pub use message::digit_char;
pub use message::params_spaced;
pub use message::prefix_opt_view;
pub use message::render_command;
pub use message::render_compact;
pub use message::render_line;
pub use message::render_prefix;
pub use message::ws_join;
pub use model::CommandModel;
pub use model::MessageModel;
pub use model::PrefixModel;
pub use model::all_digits;
pub use model::classify_command;
pub use model::classify_word;
pub use model::digit_of;
pub use model::digits_val;
pub use model::first_index;
pub use model::is_digit;
pub use model::min_opt;
pub use model::spec_command;
pub use model::spec_decode;
pub use model::spec_params;
pub use model::spec_prefix;
pub use model::split_spaces;
pub use parse::parse_message;
pub use parse::parse_prefix;
pub use parse::parse_user_prefix;
pub use parse::prefix_word;
