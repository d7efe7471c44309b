//! The decoded message and its parts.
use crate::grammar::{
    after_prefix, after_tags, command_of, has_prefix_block, has_tag_block, params_after,
    params_of, parse_line, prefix_end, prefix_of, tag_end, tag_entry, tags_of,
};
use crate::scan::{
    chars_of, find_in, piece, spans, split_bounds, split_on, texts, words_range, Separator,
};
use vstd::prelude::*;

verus! {

/// Where a message comes from.
#[derive(Debug, PartialEq, Clone)]
pub enum Prefix {
    /// A server, named by its one identity segment.
    Servername(String),
    /// A user, as nick, user and host.
    Nick(String, String, String),
}

/// The model of a [`Prefix`].
pub enum PrefixView {
    Servername(Seq<char>),
    Nick(Seq<char>, Seq<char>, Seq<char>),
}

impl View for Prefix {
    type V = PrefixView;

    open spec fn view(&self) -> PrefixView {
        match self {
            Prefix::Servername(n) => PrefixView::Servername(n@),
            Prefix::Nick(n, u, h) => PrefixView::Nick(n@, u@, h@),
        }
    }
}

/// One tag entry: its key and its value, absent when the line gave none or
/// an empty one.
pub type Tag = (String, Option<String>);

/// A decoded line. Tag entries keep the order in which they appear, a
/// repeated key once for each time it appears.
#[derive(Debug, Clone)]
pub struct Message {
    pub tags: Option<Vec<Tag>>,
    pub prefix: Option<Prefix>,
    pub command: Option<String>,
    pub params: Option<Vec<String>>,
}

/// The model of a [`Message`].
pub struct MessageView {
    pub tags: Option<Seq<(Seq<char>, Option<Seq<char>>)>>,
    pub prefix: Option<PrefixView>,
    pub command: Option<Seq<char>>,
    pub params: Option<Seq<Seq<char>>>,
}

/// The characters of an optional string.
pub open spec fn text_view(o: Option<String>) -> Option<Seq<char>> {
    match o {
        Some(s) => Some(s@),
        None => None,
    }
}

/// The model of one tag entry.
pub open spec fn tag_view(t: Tag) -> (Seq<char>, Option<Seq<char>>) {
    (t.0@, text_view(t.1))
}

/// The model of a sequence of tag entries.
pub open spec fn tags_view(t: Seq<Tag>) -> Seq<(Seq<char>, Option<Seq<char>>)> {
    t.map_values(|e: Tag| tag_view(e))
}

impl View for Message {
    type V = MessageView;

    open spec fn view(&self) -> MessageView {
        MessageView {
            tags: match self.tags {
                Some(t) => Some(tags_view(t@)),
                None => None,
            },
            prefix: match self.prefix {
                Some(p) => Some(p@),
                None => None,
            },
            command: text_view(self.command),
            params: match self.params {
                Some(p) => Some(texts(p@)),
                None => None,
            },
        }
    }
}

/// Why a line could not be decoded.
#[derive(Debug, Clone, Copy, PartialEq, Eq)]
pub enum ParseError {
    /// The line is empty.
    EmptyInput,
    /// A tag or prefix block runs to the end of the line, so no command
    /// follows it.
    MissingCommand,
}

/// `r` is what decoding the line `s` gives.
pub open spec fn parsed_as(s: Seq<char>, r: Result<Message, ParseError>) -> bool {
    match r {
        Ok(m) => parse_line(s) == Ok::<MessageView, ParseError>(m@),
        Err(e) => parse_line(s) == Err::<MessageView, ParseError>(e),
    }
}

impl Message {
    /// Decodes one line, without its CR LF. An empty line is `EmptyInput`; a
    /// tag or prefix block with no space after it is `MissingCommand`; any
    /// other line decodes, with the parts it lacks absent.
    pub fn parse(message: &str) -> (r: Result<Message, ParseError>)
        ensures
            parsed_as(message@, r),
    {
        if message.is_empty() {
            return Err(ParseError::EmptyInput);
        }
        let cs = chars_of(message);
        let n = cs.len();
        let ghost s = message@;
        assert(cs@.subrange(0, n as int) =~= s);
        let mut pos: usize = 0;
        let mut tags: Option<Vec<Tag>> = None;
        if cs[0] == '@' {
            match find_in(&cs, ' ', 0, n) {
                None => {
                    assert(has_tag_block(s) && tag_end(s) is None);
                    return Err(ParseError::MissingCommand);
                },
                Some(i) => {
                    tags = Some(tags_in(message, &cs, 1, i));
                    pos = i + 1;
                },
            }
        }
        assert(cs@.subrange(pos as int, n as int) =~= after_tags(s));
        let ghost r = after_tags(s);
        let mut prefix: Option<Prefix> = None;
        if pos < n && cs[pos] == ':' {
            match find_in(&cs, ' ', pos, n) {
                None => {
                    assert(has_prefix_block(r) && prefix_end(r) is None);
                    return Err(ParseError::MissingCommand);
                },
                Some(i) => {
                    assert(r.subrange(1, i - pos) =~= cs@.subrange(pos + 1, i as int));
                    prefix = prefix_in(message, &cs, pos + 1, i);
                    pos = i + 1;
                },
            }
        }
        assert(cs@.subrange(pos as int, n as int) =~= after_prefix(r));
        let ghost body = after_prefix(r);
        let (command, params) = body_in(message, &cs, pos, n);
        let m = Message { tags, prefix, command: Some(command), params };
        assert(m@.command == Some(command_of(body)));
        assert(m@.params == params_after(body));
        assert(m@.prefix == (if has_prefix_block(r) { prefix_of(r.subrange(1, prefix_end(r)->0)) } else { None }));
        assert(m@.tags == (if has_tag_block(s) { Some(tags_of(s.subrange(1, tag_end(s)->0))) } else { None }));
        Ok(m)
    }
}

impl Default for Message {
    fn default() -> (m: Message)
        ensures
            m.tags is None,
            m.prefix is None,
            m.command is None,
            m.params is None,
    {
        Message { tags: None, prefix: None, command: None, params: None }
    }
}

/// The tag entry `s[a..b]`; `cs` holds the characters of `s`.
fn tag_at(s: &str, cs: &Vec<char>, a: usize, b: usize) -> (t: Tag)
    requires
        cs@ == s@,
        a <= b <= cs.len(),
    ensures
        tag_view(t) == tag_entry(cs@.subrange(a as int, b as int)),
{
    let ghost e = cs@.subrange(a as int, b as int);
    match find_in(cs, '=', a, b) {
        Some(k) => {
            assert(e.take(k - a) =~= cs@.subrange(a as int, k as int));
            assert(e.skip(k - a + 1) =~= cs@.subrange(k + 1, b as int));
            let key = piece(s, a, k);
            if k + 1 < b {
                (key, Some(piece(s, k + 1, b)))
            } else {
                (key, None)
            }
        },
        None => (piece(s, a, b), None),
    }
}

/// The entries of the tag block `s[lo..hi]`; `cs` holds the characters of `s`.
fn tags_in(s: &str, cs: &Vec<char>, lo: usize, hi: usize) -> (r: Vec<Tag>)
    requires
        cs@ == s@,
        lo <= hi <= cs.len(),
    ensures
        tags_view(r@) == tags_of(cs@.subrange(lo as int, hi as int)),
{
    reveal(tags_of);
    let bounds = split_bounds(cs, lo, hi, Separator::Semicolon);
    let ghost parts = split_on(cs@.subrange(lo as int, hi as int), Separator::Semicolon);
    let mut out: Vec<Tag> = Vec::new();
    let mut j: usize = 0;
    while j < bounds.len()
        invariant
            cs@ == s@,
            hi <= cs.len(),
            spans(cs@, bounds@) == parts,
            forall|k: int| 0 <= k < bounds.len() ==> lo <= #[trigger] bounds[k].0 <= bounds[k].1 <= hi,
            j <= bounds.len(),
            parts.len() == bounds.len(),
            out.len() == j,
            out@.map_values(|e: Tag| tag_view(e)) == parts.take(j as int).map_values(
                |e: Seq<char>| tag_entry(e),
            ),
        decreases bounds.len() - j,
    {
        let (a, b) = bounds[j];
        assert(parts[j as int] == cs@.subrange(a as int, b as int));
        let t = tag_at(s, cs, a, b);
        let ghost before = out@;
        out.push(t);
        assert(out@.map_values(|e: Tag| tag_view(e)) =~= parts.take(j + 1).map_values(
            |e: Seq<char>| tag_entry(e),
        )) by {
            let lhs = out@.map_values(|e: Tag| tag_view(e));
            let prev = before.map_values(|e: Tag| tag_view(e));
            assert forall|k: int| 0 <= k < j implies lhs[k] == prev[k] by {
                assert(out@[k] == before[k]);
            }
            assert(parts.take(j + 1)[j as int] == parts[j as int]);
            assert forall|k: int| 0 <= k < j implies parts.take(j + 1)[k] == parts.take(
                j as int,
            )[k] by {}
        }
        j = j + 1;
    }
    assert(parts.take(j as int) =~= parts);
    out
}

/// The origin named by the prefix block `s[lo..hi]`; `cs` holds the
/// characters of `s`.
fn prefix_in(s: &str, cs: &Vec<char>, lo: usize, hi: usize) -> (r: Option<Prefix>)
    requires
        cs@ == s@,
        lo <= hi <= cs.len(),
    ensures
        (match r {
            Some(p) => Some(p@),
            None => None,
        }) == prefix_of(cs@.subrange(lo as int, hi as int)),
{
    reveal(prefix_of);
    let bounds = split_bounds(cs, lo, hi, Separator::IdentityMark);
    let ghost parts = split_on(cs@.subrange(lo as int, hi as int), Separator::IdentityMark);
    assert(parts.len() == bounds.len());
    if bounds.len() == 1 {
        assert(parts[0] == cs@.subrange(bounds[0].0 as int, bounds[0].1 as int));
        Some(Prefix::Servername(piece(s, bounds[0].0, bounds[0].1)))
    } else if bounds.len() == 3 {
        assert(parts[0] == cs@.subrange(bounds[0].0 as int, bounds[0].1 as int));
        assert(parts[1] == cs@.subrange(bounds[1].0 as int, bounds[1].1 as int));
        assert(parts[2] == cs@.subrange(bounds[2].0 as int, bounds[2].1 as int));
        Some(
            Prefix::Nick(
                piece(s, bounds[0].0, bounds[0].1),
                piece(s, bounds[1].0, bounds[1].1),
                piece(s, bounds[2].0, bounds[2].1),
            ),
        )
    } else {
        None
    }
}

/// The parameters `s[lo..hi]` that follow the command's space; `cs` holds
/// the characters of `s`.
fn params_in(s: &str, cs: &Vec<char>, lo: usize, hi: usize) -> (r: Vec<String>)
    requires
        cs@ == s@,
        lo <= hi <= cs.len(),
    ensures
        texts(r@) == params_of(cs@.subrange(lo as int, hi as int)),
{
    reveal(params_of);
    let ghost p = cs@.subrange(lo as int, hi as int);
    match find_in(cs, ':', lo, hi) {
        Some(k) => {
            assert(p.skip(k - lo + 1) =~= cs@.subrange(k + 1, hi as int));
            let last = piece(s, k + 1, hi);
            assert(p.take(k - lo) =~= cs@.subrange(lo as int, k as int));
            let mut v: Vec<String> = words_range(s, cs, lo, k);
            let ghost before = v@;
            v.push(last);
            assert(texts(v@) =~= texts(before).push(last@));
            v
        },
        None => words_range(s, cs, lo, hi),
    }
}

/// The command and parameters `s[lo..hi]`; `cs` holds the characters of `s`.
fn body_in(s: &str, cs: &Vec<char>, lo: usize, hi: usize) -> (r: (String, Option<Vec<String>>))
    requires
        cs@ == s@,
        lo <= hi <= cs.len(),
    ensures
        r.0@ == command_of(cs@.subrange(lo as int, hi as int)),
        (match r.1 {
            Some(p) => Some(texts(p@)),
            None => None,
        }) == params_after(cs@.subrange(lo as int, hi as int)),
{
    reveal(command_of);
    reveal(params_after);
    let ghost body = cs@.subrange(lo as int, hi as int);
    match find_in(cs, ' ', lo, hi) {
        Some(i) => {
            assert(body.take(i - lo) =~= cs@.subrange(lo as int, i as int));
            assert(body.skip(i - lo + 1) =~= cs@.subrange(i + 1, hi as int));
            (piece(s, lo, i), Some(params_in(s, cs, i + 1, hi)))
        },
        None => (piece(s, lo, hi), None),
    }
}

} // verus!
