//! Decoding of one line of the IRC wire protocol, with IRCv3 message tags,
//! into its tags, origin prefix, command and parameters.
mod grammar;
mod laws;
mod message;
mod scan;

pub use grammar::{
    after_prefix, after_tags, command_of, has_prefix_block, has_tag_block, params_after,
    params_of, parse_line, prefix_end, prefix_of, tag_end, tag_entry, tag_value, tags_of,
};
pub use laws::{
    lemma_empty_tag_value_absent, lemma_no_empty_tag_value, lemma_parse_deterministic,
    lemma_prefix_arity,
};
pub use message::{
    parsed_as, tag_view, tags_view, text_view, Message, MessageView, ParseError, Prefix, PrefixView,
    Tag,
};
pub use scan::{first_index, non_empty, split_on, texts, words, Separator};
