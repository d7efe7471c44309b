//! The grammar of a line, as spec functions over its characters.
use crate::message::{MessageView, ParseError, PrefixView};
use crate::scan::{first_index, split_on, words, Separator};
use vstd::prelude::*;

verus! {

/// A tag entry split on its first `=` into key and value; a missing or empty
/// value is absent.
pub open spec fn tag_entry(e: Seq<char>) -> (Seq<char>, Option<Seq<char>>) {
    match first_index(e, '=') {
        Some(i) => (e.take(i), tag_value(e.skip(i + 1))),
        None => (e, None),
    }
}

/// The stored form of a raw tag value: the empty value is absent.
pub open spec fn tag_value(raw: Seq<char>) -> Option<Seq<char>> {
    if raw.len() == 0 {
        None
    } else {
        Some(raw)
    }
}

/// The entries of a tag block (without its `@`), in the order they appear.
#[verifier::opaque]
pub open spec fn tags_of(block: Seq<char>) -> Seq<(Seq<char>, Option<Seq<char>>)> {
    split_on(block, Separator::Semicolon).map_values(|e: Seq<char>| tag_entry(e))
}

/// The origin named by a prefix block (without its `:`): one identity
/// segment is a server name, three are nick, user and host, any other count
/// names nothing.
#[verifier::opaque]
pub open spec fn prefix_of(block: Seq<char>) -> Option<PrefixView> {
    let parts = split_on(block, Separator::IdentityMark);
    if parts.len() == 1 {
        Some(PrefixView::Servername(parts[0]))
    } else if parts.len() == 3 {
        Some(PrefixView::Nick(parts[0], parts[1], parts[2]))
    } else {
        None
    }
}

/// The line opens with a tag block.
pub open spec fn has_tag_block(s: Seq<char>) -> bool {
    s.len() > 0 && s[0] == '@'
}

/// Where the tag block ends: the first space of the line.
pub open spec fn tag_end(s: Seq<char>) -> Option<int> {
    first_index(s, ' ')
}

/// What follows the tag block and its space, or the whole line where there
/// is no tag block.
pub open spec fn after_tags(s: Seq<char>) -> Seq<char> {
    if has_tag_block(s) {
        s.skip(tag_end(s)->0 + 1)
    } else {
        s
    }
}

/// The rest of the line opens with a prefix block.
pub open spec fn has_prefix_block(r: Seq<char>) -> bool {
    r.len() > 0 && r[0] == ':'
}

/// Where the prefix block ends: the first space of the rest.
pub open spec fn prefix_end(r: Seq<char>) -> Option<int> {
    first_index(r, ' ')
}

/// What follows the prefix block and its space, or the whole rest where
/// there is no prefix block.
pub open spec fn after_prefix(r: Seq<char>) -> Seq<char> {
    if has_prefix_block(r) {
        r.skip(prefix_end(r)->0 + 1)
    } else {
        r
    }
}

/// The command: everything before the first space, or all of it.
#[verifier::opaque]
pub open spec fn command_of(body: Seq<char>) -> Seq<char> {
    match first_index(body, ' ') {
        Some(i) => body.take(i),
        None => body,
    }
}

/// The parameters that follow the command's space: what stands before the
/// first `:` split into words, then what follows that `:` verbatim; without
/// a `:`, words alone.
#[verifier::opaque]
pub open spec fn params_of(p: Seq<char>) -> Seq<Seq<char>> {
    match first_index(p, ':') {
        Some(k) => words(p.take(k)).push(p.skip(k + 1)),
        None => words(p),
    }
}

/// The parameters that follow the command in `body`: absent where no space
/// follows the command.
#[verifier::opaque]
pub open spec fn params_after(body: Seq<char>) -> Option<Seq<Seq<char>>> {
    match first_index(body, ' ') {
        Some(i) => Some(params_of(body.skip(i + 1))),
        None => None,
    }
}

/// The outcome of decoding the line `s`.
pub open spec fn parse_line(s: Seq<char>) -> Result<MessageView, ParseError> {
    if s.len() == 0 {
        Err(ParseError::EmptyInput)
    } else if has_tag_block(s) && tag_end(s) is None {
        Err(ParseError::MissingCommand)
    } else {
        let r = after_tags(s);
        if has_prefix_block(r) && prefix_end(r) is None {
            Err(ParseError::MissingCommand)
        } else {
            let body = after_prefix(r);
            Ok(
                MessageView {
                    tags: if has_tag_block(s) {
                        Some(tags_of(s.subrange(1, tag_end(s)->0)))
                    } else {
                        None
                    },
                    prefix: if has_prefix_block(r) {
                        prefix_of(r.subrange(1, prefix_end(r)->0))
                    } else {
                        None
                    },
                    command: Some(command_of(body)),
                    params: params_after(body),
                },
            )
        }
    }
}

} // verus!
