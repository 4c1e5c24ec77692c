//! Splitting text into lines.
//!
//! A line ends at a line feed, or at a carriage return directly followed by a
//! line feed; neither belongs to the line. The last line needs no line ending,
//! and text that ends with one holds no further, empty line after it. A
//! carriage return that no line feed follows is an ordinary character.

use vstd::prelude::*;

verus! {

/// How many elements stand at the front of `s` before the first one of which
/// `stop` holds (all of them, if it holds of none).
pub open spec fn leading<A>(s: Seq<A>, stop: spec_fn(A) -> bool) -> nat
    decreases s.len(),
{
    if s.len() == 0 || stop(s[0]) {
        0
    } else {
        1 + leading(s.drop_first(), stop)
    }
}

/// `leading` is the one position up to which nothing stops and at which,
/// unless it is the end, something does.
pub proof fn lemma_leading_is<A>(s: Seq<A>, stop: spec_fn(A) -> bool, n: int)
    requires
        0 <= n <= s.len(),
        forall|i: int| 0 <= i < n ==> !stop(#[trigger] s[i]),
        n < s.len() ==> stop(s[n]),
    ensures
        leading(s, stop) == n,
    decreases s.len(),
{
    if s.len() == 0 || stop(s[0]) {
    } else {
        let rest = s.drop_first();
        assert forall|i: int| 0 <= i < n - 1 implies !stop(#[trigger] rest[i]) by {
            assert(rest[i] == s[i + 1]);
        }
        lemma_leading_is(rest, stop, n - 1);
    }
}

/// What `leading` returns lies within the sequence, nothing before it stops,
/// and the element at it, if there is one, does.
pub proof fn lemma_leading_bounds<A>(s: Seq<A>, stop: spec_fn(A) -> bool)
    ensures
        leading(s, stop) <= s.len(),
        forall|i: int| 0 <= i < leading(s, stop) ==> !stop(#[trigger] s[i]),
        leading(s, stop) < s.len() ==> stop(s[leading(s, stop) as int]),
    decreases s.len(),
{
    if s.len() == 0 || stop(s[0]) {
    } else {
        let rest = s.drop_first();
        lemma_leading_bounds(rest, stop);
        assert forall|i: int| 0 <= i < leading(s, stop) implies !stop(#[trigger] s[i]) by {
            if i > 0 {
                assert(s[i] == rest[i - 1]);
            }
        }
        if leading(s, stop) < s.len() {
            assert(s[leading(s, stop) as int] == rest[leading(rest, stop) as int]);
        }
    }
}

/// Whether `c` is the line feed.
pub open spec fn is_line_feed(c: char) -> bool {
    c == '\n'
}

/// `line` without the carriage return at its end, if it has one there.
pub open spec fn without_carriage_return(line: Seq<char>) -> Seq<char> {
    if line.len() > 0 && line.last() == '\r' {
        line.drop_last()
    } else {
        line
    }
}

/// The lines of `text`, in order.
pub open spec fn split_lines(text: Seq<char>) -> Seq<Seq<char>>
    decreases text.len(),
{
    if text.len() == 0 {
        Seq::empty()
    } else {
        let n = leading(text, |c: char| is_line_feed(c)) as int;
        if n >= text.len() {
            seq![text]
        } else {
            seq![without_carriage_return(text.take(n))] + split_lines(text.skip(n + 1))
        }
    }
}

/// A stretch of a text, from the character at `start` up to, not including,
/// the one at `end`.
#[derive(Clone, Copy, Debug)]
pub struct Span {
    pub start: usize,
    pub end: usize,
}

impl Span {
    /// Whether the span lies within `text`.
    pub open spec fn within(self, text: Seq<char>) -> bool {
        self.start <= self.end <= text.len()
    }

    /// The characters of `text` that the span covers.
    pub open spec fn of(self, text: Seq<char>) -> Seq<char> {
        text.subrange(self.start as int, self.end as int)
    }
}

/// The stretches of `text` that `spans` cover, in order.
pub open spec fn spanned(text: Seq<char>, spans: Seq<Span>) -> Seq<Seq<char>> {
    Seq::new(spans.len(), |i: int| spans[i].of(text))
}

/// Whether every span of `spans` lies within `text`.
pub open spec fn all_within(text: Seq<char>, spans: Seq<Span>) -> bool {
    forall|i: int| 0 <= i < spans.len() ==> (#[trigger] spans[i]).within(text)
}

/// The characters of `text`, one by one.
pub fn chars_of(text: &str) -> (chars: Vec<char>)
    ensures
        chars@ == text@,
{
    let mut chars: Vec<char> = Vec::new();
    for c in it: text.chars()
        invariant
            it.seq() == text@,
            chars@ == it.seq().take(it.index() as int),
    {
        chars.push(c);
    }
    chars
}

/// The place of the first line feed in `chars` at or after `from`, or the
/// length of `chars` where none follows.
fn next_line_feed(chars: &Vec<char>, from: usize) -> (at: usize)
    requires
        from <= chars.len(),
    ensures
        from <= at <= chars.len(),
        at - from == leading(chars@.skip(from as int), |c: char| is_line_feed(c)),
{
    let mut at = from;
    while at < chars.len() && chars[at] != '\n'
        invariant
            from <= at <= chars.len(),
            forall|k: int| from <= k < at ==> chars@[k] != '\n',
        decreases chars.len() - at,
    {
        at += 1;
    }
    proof {
        let rest = chars@.skip(from as int);
        let feed = |c: char| is_line_feed(c);
        assert forall|i: int| 0 <= i < at - from implies !feed(#[trigger] rest[i]) by {
            assert(rest[i] == chars@[from + i]);
        }
        lemma_leading_is(rest, feed, at - from);
    }
    at
}

/// Where each line of `chars` stands in it.
pub fn line_spans(chars: &Vec<char>) -> (spans: Vec<Span>)
    ensures
        all_within(chars@, spans@),
        spanned(chars@, spans@) == split_lines(chars@),
{
    let mut spans: Vec<Span> = Vec::new();
    let mut start: usize = 0;
    proof {
        assert(chars@.skip(0) == chars@);
        assert(spanned(chars@, spans@) + split_lines(chars@) == split_lines(chars@));
    }
    while start < chars.len()
        invariant
            start <= chars.len(),
            all_within(chars@, spans@),
            split_lines(chars@) == spanned(chars@, spans@) + split_lines(
                chars@.skip(start as int),
            ),
        decreases chars.len() - start,
    {
        let feed = next_line_feed(chars, start);
        let ended = feed < chars.len();
        let end = if ended && feed > start && chars[feed - 1] == '\r' {
            feed - 1
        } else {
            feed
        };
        let next = if ended {
            feed + 1
        } else {
            feed
        };
        proof {
            let rest = chars@.skip(start as int);
            let line = chars@.subrange(start as int, end as int);
            let found = spanned(chars@, spans@);
            if ended {
                assert(rest.take(feed - start) == chars@.subrange(start as int, feed as int));
                assert(without_carriage_return(rest.take(feed - start)) == line);
                assert(rest.skip(feed - start + 1) == chars@.skip(next as int));
            } else {
                assert(rest == line);
                assert(split_lines(chars@.skip(next as int)) == Seq::<Seq<char>>::empty());
            }
            assert(split_lines(rest) == seq![line] + split_lines(chars@.skip(next as int)));
            assert(found + (seq![line] + split_lines(chars@.skip(next as int))) == found.push(line)
                + split_lines(chars@.skip(next as int)));
            assert(spanned(chars@, spans@.push(Span { start, end })) == found.push(line));
        }
        spans.push(Span { start, end });
        start = next;
    }
    proof {
        assert(split_lines(chars@.skip(start as int)) == Seq::<Seq<char>>::empty());
        assert(spanned(chars@, spans@) + Seq::<Seq<char>>::empty() == spanned(chars@, spans@));
    }
    spans
}

} // verus!
