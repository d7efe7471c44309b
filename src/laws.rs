//! Properties of decoding that hold for every line.
use crate::grammar::{
    after_tags, has_prefix_block, has_tag_block, parse_line, prefix_end, prefix_of, tag_end,
    tag_entry, tags_of,
};
use crate::message::{parsed_as, Message, ParseError};
use crate::scan::{first_index, split_on, Separator};
use vstd::prelude::*;

verus! {

/// Decoding is deterministic: any two results of decoding the same line
/// agree, field for field, or are the same error.
pub proof fn lemma_parse_deterministic(
    s: Seq<char>,
    r1: Result<Message, ParseError>,
    r2: Result<Message, ParseError>,
)
    requires
        parsed_as(s, r1),
        parsed_as(s, r2),
    ensures
        r1 is Ok <==> r2 is Ok,
        r1 is Ok ==> r1->Ok_0@ == r2->Ok_0@,
        r1 is Err ==> r1->Err_0 == r2->Err_0,
{
}

/// A tag entry with an empty raw value, or with no `=` at all, stores an
/// absent value; no entry ever stores the empty string as its value.
pub proof fn lemma_empty_tag_value_absent(e: Seq<char>)
    ensures
        first_index(e, '=') is None ==> tag_entry(e).1 is None,
        first_index(e, '=') matches Some(i) && e.skip(i + 1).len() == 0 ==> tag_entry(e).1 is None,
        tag_entry(e).1 != Some(Seq::<char>::empty()),
{
}

/// No tag of a decoded line holds the empty string as its value.
pub proof fn lemma_no_empty_tag_value(s: Seq<char>)
    ensures
        parse_line(s) matches Ok(m) ==> (m.tags matches Some(t) ==> forall|k: int|
            0 <= k < t.len() ==> #[trigger] t[k].1 != Some(Seq::<char>::empty())),
{
    if has_tag_block(s) && tag_end(s) is Some {
        let block = s.subrange(1, tag_end(s)->0);
        let t = tags_of(block);
        assert forall|k: int| 0 <= k < t.len() implies #[trigger] t[k].1 != Some(
            Seq::<char>::empty(),
        ) by {
            reveal(tags_of);
            let parts = split_on(block, Separator::Semicolon);
            assert(t[k] == tag_entry(parts[k]));
            lemma_empty_tag_value_absent(parts[k]);
        }
    }
}

/// A prefix block that splits into neither one nor three identity segments
/// (two or four, say) names no origin and is no error: the line still
/// decodes, with its prefix absent.
pub proof fn lemma_prefix_arity(s: Seq<char>)
    requires
        s.len() > 0,
        has_tag_block(s) ==> tag_end(s) is Some,
        has_prefix_block(after_tags(s)),
        prefix_end(after_tags(s)) is Some,
        split_on(
            after_tags(s).subrange(1, prefix_end(after_tags(s))->0),
            Separator::IdentityMark,
        ).len() != 1,
        split_on(
            after_tags(s).subrange(1, prefix_end(after_tags(s))->0),
            Separator::IdentityMark,
        ).len() != 3,
    ensures
        parse_line(s) is Ok,
        parse_line(s)->Ok_0.prefix is None,
{
    reveal(prefix_of);
}

} // verus!
