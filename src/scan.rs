use vstd::prelude::*;

verus! {

/// The position of the first occurrence of `c` in `s`, if any.
#[verifier::opaque]
pub open spec fn first_index(s: Seq<char>, c: char) -> Option<int> {
    if s.contains(c) {
        Some(choose|i: int| 0 <= i < s.len() && s[i] == c && forall|j: int| 0 <= j < i ==> s[j] != c)
    } else {
        None
    }
}

proof fn lemma_first_index_at(s: Seq<char>, c: char, i: int)
    requires
        0 <= i < s.len(),
        s[i] == c,
        forall|j: int| 0 <= j < i ==> s[j] != c,
    ensures
        first_index(s, c) == Some(i),
{
    reveal(first_index);
    assert(s.contains(c));
    let k = choose|k: int| 0 <= k < s.len() && s[k] == c && forall|j: int| 0 <= j < k ==> s[j] != c;
    if k < i {
        assert(s[k] != c);
    } else if k > i {
        assert(s[i] != c);
    }
}

proof fn lemma_first_index_none(s: Seq<char>, c: char)
    requires
        forall|j: int| 0 <= j < s.len() ==> s[j] != c,
    ensures
        first_index(s, c) is None,
{
    reveal(first_index);
    if s.contains(c) {
        let k = choose|k: int| 0 <= k < s.len() && s[k] == c;
        assert(s[k] != c);
    }
}

/// Finds the first `c` in `cs[lo..hi]`, as an index into `cs`.
pub(crate) fn find_in(cs: &Vec<char>, c: char, lo: usize, hi: usize) -> (r: Option<usize>)
    requires
        lo <= hi <= cs.len(),
    ensures
        r matches Some(k) ==> lo <= k < hi && cs@[k as int] == c,
        r matches Some(k) ==> forall|j: int| lo <= j < k ==> cs@[j] != c,
        r matches Some(k) ==> first_index(cs@.subrange(lo as int, hi as int), c) == Some(k - lo),
        r is None ==> first_index(cs@.subrange(lo as int, hi as int), c) is None,
{
    let ghost s = cs@.subrange(lo as int, hi as int);
    let mut i: usize = lo;
    while i < hi
        invariant
            lo <= i <= hi <= cs.len(),
            s == cs@.subrange(lo as int, hi as int),
            forall|j: int| 0 <= j < i - lo ==> s[j] != c,
            forall|j: int| lo <= j < i ==> cs@[j] != c,
        decreases hi - i,
    {
        if cs[i] == c {
            proof {
                lemma_first_index_at(s, c, i - lo);
            }
            return Some(i);
        }
        i = i + 1;
    }
    proof {
        lemma_first_index_none(s, c);
    }
    None
}

/// The characters of `s`, in order.
pub(crate) fn chars_of(s: &str) -> (v: Vec<char>)
    ensures
        v@ == s@,
{
    let mut v: Vec<char> = Vec::new();
    for c in it: s.chars()
        invariant
            v@ == it.seq().take(it.index() as int),
    {
        v.push(c);
    }
    v
}

/// The delimiters on which a piece of a line is split.
#[derive(Clone, Copy, Debug, PartialEq, Eq)]
pub enum Separator {
    /// `;`, between tag entries.
    Semicolon,
    /// `!` or `@`, between the identity segments of a prefix.
    IdentityMark,
    /// ASCII whitespace: space, tab, line feed, form feed, carriage return.
    AsciiWhitespace,
}

impl Separator {
    /// `c` is one of the delimiters.
    pub open spec fn spec_matches(self, c: char) -> bool {
        match self {
            Separator::Semicolon => c == ';',
            Separator::IdentityMark => c == '!' || c == '@',
            Separator::AsciiWhitespace => c == ' ' || c == '\t' || c == '\n' || c == '\x0C' || c
                == '\r',
        }
    }

    /// Tells whether `c` is one of the delimiters.
    pub fn matches(&self, c: char) -> (r: bool)
        ensures
            r == self.spec_matches(c),
    {
        match self {
            Separator::Semicolon => c == ';',
            Separator::IdentityMark => c == '!' || c == '@',
            Separator::AsciiWhitespace => c == ' ' || c == '\t' || c == '\n' || c == '\x0C' || c
                == '\r',
        }
    }
}

/// The pieces of `s` between occurrences of `sep`, empty pieces included:
/// one more piece than there are separators.
pub open spec fn split_on(s: Seq<char>, sep: Separator) -> Seq<Seq<char>>
    decreases s.len(),
{
    if s.len() == 0 {
        seq![Seq::empty()]
    } else {
        let head = split_on(s.drop_last(), sep);
        if sep.spec_matches(s.last()) {
            head.push(Seq::empty())
        } else {
            head.update(head.len() - 1, head.last().push(s.last()))
        }
    }
}

/// The non-empty runs of characters of `s` that are not ASCII whitespace.
#[verifier::opaque]
pub open spec fn words(s: Seq<char>) -> Seq<Seq<char>> {
    split_on(s, Separator::AsciiWhitespace).filter(non_empty())
}

/// Holds of the pieces that are kept as words.
pub open spec fn non_empty() -> spec_fn(Seq<char>) -> bool {
    |w: Seq<char>| w.len() > 0
}

proof fn lemma_filter_push(a: Seq<Seq<char>>, x: Seq<char>)
    ensures
        a.push(x).filter(non_empty()) == if x.len() > 0 {
            a.filter(non_empty()).push(x)
        } else {
            a.filter(non_empty())
        },
{
    reveal(Seq::filter);
    assert(a.push(x).drop_last() =~= a);
}

/// What a sequence of strings holds, as character sequences.
pub open spec fn texts(v: Seq<String>) -> Seq<Seq<char>> {
    v.map_values(|x: String| x@)
}

/// Steps the split of `cs[lo..i]` to that of `cs[lo..i + 1]`.
proof fn lemma_split_step(
    cs: Seq<char>,
    lo: int,
    start: int,
    i: int,
    sep: Separator,
    done: Seq<Seq<char>>,
)
    requires
        0 <= lo <= start <= i < cs.len(),
        split_on(cs.subrange(lo, i), sep) == done.push(cs.subrange(start, i)),
    ensures
        sep.spec_matches(cs[i]) ==> split_on(cs.subrange(lo, i + 1), sep) == done.push(
            cs.subrange(start, i),
        ).push(cs.subrange(i + 1, i + 1)),
        !sep.spec_matches(cs[i]) ==> split_on(cs.subrange(lo, i + 1), sep) == done.push(
            cs.subrange(start, i + 1),
        ),
{
    let t = cs.subrange(lo, i + 1);
    assert(t.drop_last() =~= cs.subrange(lo, i));
    assert(t.last() == cs[i]);
    assert(cs.subrange(i + 1, i + 1) =~= Seq::<char>::empty());
    let head = done.push(cs.subrange(start, i));
    assert(head.last().push(cs[i]) =~= cs.subrange(start, i + 1));
    assert(head.update(head.len() - 1, cs.subrange(start, i + 1)) =~= done.push(
        cs.subrange(start, i + 1),
    ));
}

/// A copy of the characters `from..to` of `s`.
pub(crate) fn piece(s: &str, from: usize, to: usize) -> (r: String)
    requires
        from <= to <= s@.len(),
    ensures
        r@ == s@.subrange(from as int, to as int),
{
    String::from_str(s.substring_char(from, to))
}

/// The characters of `cs` that each pair of bounds encloses.
pub open spec fn spans(cs: Seq<char>, b: Seq<(usize, usize)>) -> Seq<Seq<char>> {
    b.map_values(|x: (usize, usize)| cs.subrange(x.0 as int, x.1 as int))
}

/// The bounds of the pieces of `cs[lo..hi]` between occurrences of `sep`.
pub(crate) fn split_bounds(cs: &Vec<char>, lo: usize, hi: usize, sep: Separator) -> (r: Vec<
    (usize, usize),
>)
    requires
        lo <= hi <= cs.len(),
    ensures
        spans(cs@, r@) == split_on(cs@.subrange(lo as int, hi as int), sep),
        forall|k: int| 0 <= k < r.len() ==> lo <= #[trigger] r[k].0 <= r[k].1 <= hi,
{
    let mut out: Vec<(usize, usize)> = Vec::new();
    let mut start: usize = lo;
    let mut i: usize = lo;
    assert(cs@.subrange(lo as int, lo as int) =~= Seq::<char>::empty());
    assert(spans(cs@, out@).push(cs@.subrange(lo as int, lo as int)) =~= seq![Seq::<char>::empty()]);
    while i < hi
        invariant
            lo <= start <= i <= hi <= cs.len(),
            split_on(cs@.subrange(lo as int, i as int), sep) == spans(cs@, out@).push(
                cs@.subrange(start as int, i as int),
            ),
            forall|k: int| 0 <= k < out.len() ==> lo <= #[trigger] out[k].0 <= out[k].1 <= hi,
        decreases hi - i,
    {
        proof {
            lemma_split_step(cs@, lo as int, start as int, i as int, sep, spans(cs@, out@));
        }
        if sep.matches(cs[i]) {
            let ghost before = out@;
            out.push((start, i));
            assert(spans(cs@, out@) =~= spans(cs@, before).push(cs@.subrange(start as int, i as int)));
            start = i + 1;
        }
        i = i + 1;
    }
    let ghost before = out@;
    out.push((start, hi));
    assert(spans(cs@, out@) =~= spans(cs@, before).push(cs@.subrange(start as int, hi as int)));
    out
}

/// The words of `s[lo..hi]`, split on runs of ASCII whitespace; `cs` holds
/// the characters of `s`.
pub(crate) fn words_range(s: &str, cs: &Vec<char>, lo: usize, hi: usize) -> (r: Vec<String>)
    requires
        cs@ == s@,
        lo <= hi <= cs.len(),
    ensures
        texts(r@) == words(cs@.subrange(lo as int, hi as int)),
{
    reveal(words);
    let mut out: Vec<String> = Vec::new();
    let mut start: usize = lo;
    let mut i: usize = lo;
    let ghost mut done: Seq<Seq<char>> = Seq::empty();
    assert(cs@.subrange(lo as int, lo as int) =~= Seq::<char>::empty());
    assert(done.push(cs@.subrange(lo as int, lo as int)) =~= seq![Seq::<char>::empty()]);
    proof {
        reveal(Seq::filter);
    }
    assert(texts(out@) =~= done.filter(non_empty()));
    while i < hi
        invariant
            cs@ == s@,
            lo <= start <= i <= hi <= cs.len(),
            split_on(cs@.subrange(lo as int, i as int), Separator::AsciiWhitespace) == done.push(
                cs@.subrange(start as int, i as int),
            ),
            texts(out@) == done.filter(non_empty()),
        decreases hi - i,
    {
        let sep = Separator::AsciiWhitespace;
        proof {
            lemma_split_step(cs@, lo as int, start as int, i as int, sep, done);
        }
        if sep.matches(cs[i]) {
            proof {
                lemma_filter_push(done, cs@.subrange(start as int, i as int));
            }
            if start < i {
                let p = piece(s, start, i);
                let ghost before = out@;
                out.push(p);
                assert(texts(out@) =~= texts(before).push(p@));
            }
            proof {
                done = done.push(cs@.subrange(start as int, i as int));
            }
            start = i + 1;
        }
        i = i + 1;
    }
    proof {
        lemma_filter_push(done, cs@.subrange(start as int, hi as int));
    }
    if start < hi {
        let p = piece(s, start, hi);
        let ghost before = out@;
        out.push(p);
        assert(texts(out@) =~= texts(before).push(p@));
    }
    out
}

} // verus!
