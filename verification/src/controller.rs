//! Reading an instruction document.
//!
//! A document is made of sections. A section starts with a header, a line in
//! square brackets, and runs up to the next header or to the end of the text:
//!
//! ```text
//! [destination]
//! /tmp/out
//!
//! [targets]
//! a.txt
//! b.txt
//! ```
//!
//! The destination is the line right after the `[destination]` header, and it
//! must not be empty. The targets are the lines of the `[targets]` section
//! that are not empty, in the order in which they stand; a target may stand
//! there more than once. The two sections may come in either order, and other
//! sections are passed over.
//!
//! Lines are taken as they stand: nothing is trimmed from them, and a header is
//! found only where a line is equal to it, character for character. Any line
//! that starts with `[` and ends with `]` is a header and ends the section
//! before it. Where a header stands more than once, its first occurrence
//! counts. Paths are not looked at: whether they exist is found out when the
//! targets are copied.

use crate::lines::{
    all_within, chars_of, leading, lemma_leading_bounds, lemma_leading_is, line_spans, spanned,
    split_lines, Span,
};
use vstd::prelude::*;
use vstd::string::*;

verus! {

/// Why a document could not be read.
#[derive(Clone, Copy, Debug, PartialEq, Eq, Structural)]
pub enum ParseError {
    /// No `[destination]` line, or no path on the line after it.
    MissingDestination,
    /// No `[targets]` line.
    MissingTargetsSection,
}

/// What a document says: where to copy to, and what, in the order in which
/// the document lists it.
pub struct Directive {
    pub destination: Seq<char>,
    pub targets: Seq<Seq<char>>,
}

/// The line that introduces the destination.
pub open spec fn destination_header() -> Seq<char> {
    "[destination]"@
}

/// The line that introduces the targets.
pub open spec fn targets_header() -> Seq<char> {
    "[targets]"@
}

/// Whether `line` is a header: it starts with `[` and ends with `]`.
pub open spec fn is_header(line: Seq<char>) -> bool {
    line.len() >= 2 && line.first() == '[' && line.last() == ']'
}

/// Whether `line` holds anything at all.
pub open spec fn is_filled(line: Seq<char>) -> bool {
    line.len() > 0
}

/// The destination among `lines`: the line right after the first destination
/// header, if there is such a line and it is not empty.
pub open spec fn destination_of(lines: Seq<Seq<char>>) -> Option<Seq<char>> {
    match lines.index_of_first(destination_header()) {
        Some(at) => if at + 1 < lines.len() && is_filled(lines[at + 1]) {
            Some(lines[at + 1])
        } else {
            None
        },
        None => None,
    }
}

/// The lines of the section whose header stands at `header_at`: those after
/// the header, up to the next header or to the end.
pub open spec fn section(lines: Seq<Seq<char>>, header_at: int) -> Seq<Seq<char>> {
    let after = lines.skip(header_at + 1);
    after.take(leading(after, |line: Seq<char>| is_header(line)) as int)
}

/// The lines of `lines` that are not empty, in their order.
pub open spec fn filled_lines(lines: Seq<Seq<char>>) -> Seq<Seq<char>> {
    lines.filter(|line: Seq<char>| is_filled(line))
}

/// The targets among `lines`: the lines of the section under the first targets
/// header that are not empty, in their order.
pub open spec fn targets_of(lines: Seq<Seq<char>>) -> Option<Seq<Seq<char>>> {
    match lines.index_of_first(targets_header()) {
        Some(at) => Some(filled_lines(section(lines, at))),
        None => None,
    }
}

/// What `text` says, or why it says nothing. A missing destination is
/// reported before a missing targets section.
pub open spec fn parse(text: Seq<char>) -> Result<Directive, ParseError> {
    let lines = split_lines(text);
    match destination_of(lines) {
        None => Err(ParseError::MissingDestination),
        Some(destination) => match targets_of(lines) {
            None => Err(ParseError::MissingTargetsSection),
            Some(targets) => Ok(Directive { destination, targets }),
        },
    }
}

/// Whether `kept` is `lines` without its empty lines, with `places[i]` the
/// place in `lines` at which `kept[i]` stands: every kept line is a line of
/// `lines` and is not empty, the places rise, and no line that is not empty is
/// passed over.
pub open spec fn keeps_in_order(
    lines: Seq<Seq<char>>,
    kept: Seq<Seq<char>>,
    places: Seq<int>,
) -> bool {
    &&& places.len() == kept.len()
    &&& forall|i: int|
        0 <= i < places.len() ==> 0 <= #[trigger] places[i] < lines.len() && lines[places[i]]
            == kept[i] && is_filled(kept[i])
    &&& forall|i: int, j: int|
        0 <= i < j < places.len() ==> #[trigger] places[i] < #[trigger] places[j]
    &&& forall|at: int|
        0 <= at < lines.len() && is_filled(#[trigger] lines[at]) ==> places.contains(at)
}

/// Taking the empty lines out keeps the others, each once, in their order.
pub proof fn lemma_filled_lines_keep_order(lines: Seq<Seq<char>>)
    ensures
        exists|places: Seq<int>| #[trigger] keeps_in_order(lines, filled_lines(lines), places),
    decreases lines.len(),
{
    reveal(Seq::filter);
    let keep = |line: Seq<char>| is_filled(line);
    if lines.len() == 0 {
        assert(keeps_in_order(lines, filled_lines(lines), Seq::<int>::empty()));
    } else {
        let rest = lines.drop_last();
        lemma_filled_lines_keep_order(rest);
        let before = choose|places: Seq<int>| #[trigger]
            keeps_in_order(rest, filled_lines(rest), places);
        let last = lines.len() - 1;
        if is_filled(lines.last()) {
            let places = before.push(last);
            let kept = filled_lines(lines);
            assert(kept == filled_lines(rest).push(lines.last()));
            assert forall|at: int|
                0 <= at < lines.len() && is_filled(#[trigger] lines[at]) implies places.contains(
                at,
            ) by {
                if at < last {
                    assert(rest[at] == lines[at]);
                    let i = choose|i: int| 0 <= i < before.len() && before[i] == at;
                    assert(places[i] == at);
                } else {
                    assert(places[before.len() as int] == at);
                }
            }
            assert(keeps_in_order(lines, kept, places));
        } else {
            assert forall|at: int|
                0 <= at < lines.len() && is_filled(#[trigger] lines[at]) implies before.contains(
                at,
            ) by {
                assert(rest[at] == lines[at]);
            }
            assert(keeps_in_order(lines, filled_lines(lines), before));
        }
    }
}

/// A document with no destination header, or whose first destination header
/// is its last line, is refused for its missing destination.
pub proof fn lemma_missing_destination(text: Seq<char>)
    requires
        !split_lines(text).contains(destination_header()) || split_lines(text).index_of_first(
            destination_header(),
        ) == Some(split_lines(text).len() - 1),
    ensures
        parse(text) == Err::<Directive, ParseError>(ParseError::MissingDestination),
{
    split_lines(text).index_of_first_ensures(destination_header());
}

/// A document that names its destination and has no targets header is refused
/// for its missing targets section.
pub proof fn lemma_missing_targets_section(text: Seq<char>)
    requires
        destination_of(split_lines(text)) is Some,
        !split_lines(text).contains(targets_header()),
    ensures
        parse(text) == Err::<Directive, ParseError>(ParseError::MissingTargetsSection),
{
    split_lines(text).index_of_first_ensures(targets_header());
}

/// A document with no targets header is refused whatever else it holds.
pub proof fn lemma_no_targets_header_is_refused(text: Seq<char>)
    requires
        !split_lines(text).contains(targets_header()),
    ensures
        parse(text) is Err,
{
    split_lines(text).index_of_first_ensures(targets_header());
}

/// A targets section with no line in it, or with empty lines only, is no
/// error: the document is read, and names no target.
pub proof fn lemma_empty_targets_section(text: Seq<char>)
    requires
        destination_of(split_lines(text)) is Some,
        split_lines(text).index_of_first(targets_header()) is Some,
        forall|i: int|
            0 <= i < section(
                split_lines(text),
                split_lines(text).index_of_first(targets_header())->0,
            ).len() ==> !is_filled(
                #[trigger] section(
                    split_lines(text),
                    split_lines(text).index_of_first(targets_header())->0,
                )[i],
            ),
    ensures
        parse(text) == Ok::<Directive, ParseError>(
            Directive {
                destination: destination_of(split_lines(text))->0,
                targets: Seq::empty(),
            },
        ),
{
    let lines = split_lines(text);
    let body = section(lines, lines.index_of_first(targets_header())->0);
    let keep = |line: Seq<char>| is_filled(line);
    lemma_filled_lines_keep_order(body);
    let places = choose|places: Seq<int>| #[trigger]
        keeps_in_order(body, filled_lines(body), places);
    if places.len() > 0 {
        assert(is_filled(body[places[0]]));
    }
    assert(filled_lines(body) =~= Seq::<Seq<char>>::empty());
}

/// The targets of a document that was read are the lines of its targets
/// section that are not empty, each once and in the order of the document.
pub proof fn lemma_targets_keep_document_order(text: Seq<char>)
    requires
        parse(text) is Ok,
    ensures
        split_lines(text).index_of_first(targets_header()) is Some,
        exists|places: Seq<int>| #[trigger]
            keeps_in_order(
                section(split_lines(text), split_lines(text).index_of_first(targets_header())->0),
                parse(text)->Ok_0.targets,
                places,
            ),
{
    let lines = split_lines(text);
    let body = section(lines, lines.index_of_first(targets_header())->0);
    lemma_filled_lines_keep_order(body);
    let places = choose|places: Seq<int>| #[trigger]
        keeps_in_order(body, filled_lines(body), places);
    assert(keeps_in_order(body, parse(text)->Ok_0.targets, places));
}

/// A document that was read names a destination that is not empty, and no
/// target that is.
pub proof fn lemma_nothing_read_is_empty(text: Seq<char>)
    requires
        parse(text) is Ok,
    ensures
        is_filled(parse(text)->Ok_0.destination),
        forall|i: int|
            0 <= i < parse(text)->Ok_0.targets.len() ==> is_filled(
                #[trigger] parse(text)->Ok_0.targets[i],
            ),
{
    lemma_targets_keep_document_order(text);
}

/// The section under the header at `header_at` is a stretch of the document:
/// its lines are those that follow the header, one after the other, none of
/// them a header, and it ends at the next header or with the document.
pub proof fn lemma_section_follows_header(lines: Seq<Seq<char>>, header_at: int)
    requires
        0 <= header_at < lines.len(),
    ensures
        section(lines, header_at).len() <= lines.len() - header_at - 1,
        forall|i: int|
            0 <= i < section(lines, header_at).len() ==> #[trigger] section(lines, header_at)[i]
                == lines[header_at + 1 + i] && !is_header(lines[header_at + 1 + i]),
        header_at + 1 + section(lines, header_at).len() < lines.len() ==> is_header(
            lines[header_at + 1 + section(lines, header_at).len()],
        ),
{
    let after = lines.skip(header_at + 1);
    let header = |line: Seq<char>| is_header(line);
    lemma_leading_bounds(after, header);
    assert forall|i: int| 0 <= i < section(lines, header_at).len() implies #[trigger] section(
        lines,
        header_at,
    )[i] == lines[header_at + 1 + i] && !is_header(lines[header_at + 1 + i]) by {
        assert(after[i] == lines[header_at + 1 + i]);
        assert(!header(after[i]));
    }
    if header_at + 1 + section(lines, header_at).len() < lines.len() {
        assert(header(after[leading(after, header) as int]));
    }
}

/// Whether the stretch `span` of `chars` is equal to `wanted`.
fn span_equals(chars: &Vec<char>, span: Span, wanted: &Vec<char>) -> (equal: bool)
    requires
        span.within(chars@),
    ensures
        equal == (span.of(chars@) == wanted@),
{
    if span.end - span.start != wanted.len() {
        return false;
    }
    let mut i: usize = 0;
    while i < wanted.len()
        invariant
            span.within(chars@),
            span.end - span.start == wanted.len(),
            i <= wanted.len(),
            forall|k: int| 0 <= k < i ==> span.of(chars@)[k] == wanted@[k],
        decreases wanted.len() - i,
    {
        if chars[span.start + i] != wanted[i] {
            assert(span.of(chars@)[i as int] != wanted@[i as int]);
            return false;
        }
        i += 1;
    }
    assert(span.of(chars@) =~= wanted@);
    true
}

/// Whether the stretch `span` of `chars` is a header.
fn span_is_header(chars: &Vec<char>, span: Span) -> (header: bool)
    requires
        span.within(chars@),
    ensures
        header == is_header(span.of(chars@)),
{
    span.end - span.start >= 2 && chars[span.start] == '[' && chars[span.end - 1] == ']'
}

/// Where, among the lines that `spans` cover, `wanted` first stands.
fn find_line(chars: &Vec<char>, spans: &Vec<Span>, wanted: &Vec<char>) -> (found: Option<usize>)
    requires
        all_within(chars@, spans@),
    ensures
        match found {
            Some(at) => at < spans.len() && spanned(chars@, spans@).index_of_first(wanted@)
                == Some(at as int),
            None => spanned(chars@, spans@).index_of_first(wanted@) is None,
        },
{
    let ghost lines = spanned(chars@, spans@);
    let mut i: usize = 0;
    while i < spans.len()
        invariant
            all_within(chars@, spans@),
            lines == spanned(chars@, spans@),
            i <= spans.len(),
            forall|k: int| 0 <= k < i ==> lines[k] != wanted@,
        decreases spans.len() - i,
    {
        if span_equals(chars, spans[i], wanted) {
            proof {
                lines.index_of_first_ensures(wanted@);
                assert(lines[i as int] == wanted@);
            }
            return Some(i);
        }
        i += 1;
    }
    proof {
        lines.index_of_first_ensures(wanted@);
    }
    None
}

/// The text of the stretch `span` of `text`.
fn copy_of(text: &str, span: Span) -> (copy: String)
    requires
        span.within(text@),
    ensures
        copy@ == span.of(text@),
{
    text.substring_char(span.start, span.end).to_owned()
}

/// Where the section ends whose first line, among the lines that `spans`
/// cover, stands at `first`, right after its header.
fn section_end(chars: &Vec<char>, spans: &Vec<Span>, first: usize) -> (end: usize)
    requires
        all_within(chars@, spans@),
        1 <= first <= spans.len(),
    ensures
        first <= end <= spans.len(),
        section(spanned(chars@, spans@), first - 1) == spanned(chars@, spans@).subrange(
            first as int,
            end as int,
        ),
{
    let ghost lines = spanned(chars@, spans@);
    let mut end = first;
    while end < spans.len() && !span_is_header(chars, spans[end])
        invariant
            all_within(chars@, spans@),
            lines == spanned(chars@, spans@),
            first <= end <= spans.len(),
            forall|k: int| first <= k < end ==> !is_header(#[trigger] lines[k]),
        decreases spans.len() - end,
    {
        end += 1;
    }
    proof {
        let after = lines.skip(first as int);
        let header = |line: Seq<char>| is_header(line);
        assert forall|k: int| 0 <= k < end - first implies !header(#[trigger] after[k]) by {
            assert(after[k] == lines[first + k]);
        }
        lemma_leading_is(after, header, end - first);
        assert(after.take(end - first) == lines.subrange(first as int, end as int));
    }
    end
}

/// With one more line at its end, a sequence has one more filled line, or as
/// many as before where that line is empty.
proof fn lemma_filled_lines_push(lines: Seq<Seq<char>>, line: Seq<char>)
    ensures
        filled_lines(lines.push(line)) == if is_filled(line) {
            filled_lines(lines).push(line)
        } else {
            filled_lines(lines)
        },
{
    reveal(Seq::filter);
    assert(lines.push(line).drop_last() == lines);
}

/// The lines from `first` up to `end`, among those that `spans` cover in
/// `text`, that are not empty.
fn filled_texts(text: &str, spans: &Vec<Span>, first: usize, end: usize) -> (texts: Vec<String>)
    requires
        all_within(text@, spans@),
        first <= end <= spans.len(),
    ensures
        texts.deep_view() == filled_lines(
            spanned(text@, spans@).subrange(first as int, end as int),
        ),
        forall|k: int| 0 <= k < texts@.len() ==> is_filled(#[trigger] texts@[k]@),
{
    let ghost lines = spanned(text@, spans@);
    let mut texts: Vec<String> = Vec::new();
    let mut i = first;
    proof {
        reveal(Seq::filter);
        assert(texts.deep_view() == filled_lines(lines.subrange(first as int, i as int)));
    }
    while i < end
        invariant
            all_within(text@, spans@),
            lines == spanned(text@, spans@),
            first <= i <= end <= spans.len(),
            texts.deep_view() == filled_lines(lines.subrange(first as int, i as int)),
            forall|k: int| 0 <= k < texts@.len() ==> is_filled(#[trigger] texts@[k]@),
        decreases end - i,
    {
        let span = spans[i];
        let ghost kept = texts.deep_view();
        proof {
            lemma_filled_lines_push(lines.subrange(first as int, i as int), lines[i as int]);
            assert(lines.subrange(first as int, i + 1) == lines.subrange(
                first as int,
                i as int,
            ).push(lines[i as int]));
        }
        if span.end > span.start {
            texts.push(copy_of(text, span));
            assert(texts.deep_view() == kept.push(span.of(text@)));
        }
        i += 1;
    }
    texts
}

/// A document that was read: the destination and the targets that it names.
pub struct Controller {
    destination: String,
    targets: Vec<String>,
}

impl View for Controller {
    type V = Directive;

    closed spec fn view(&self) -> Directive {
        Directive { destination: self.destination@, targets: self.targets.deep_view() }
    }
}

impl Controller {
    #[verifier::type_invariant]
    spec fn filled(&self) -> bool {
        &&& is_filled(self.destination@)
        &&& forall|i: int| 0 <= i < self.targets@.len() ==> is_filled(#[trigger] self.targets@[i]@)
    }

    /// Reads the document `cci_instructions`. A document without a
    /// destination is refused, and so is one that has a destination and no
    /// targets section; a targets section without targets is in order.
    pub fn new(cci_instructions: String) -> (read: Result<Controller, ParseError>)
        ensures
            match read {
                Ok(controller) => parse(cci_instructions@) == Ok::<Directive, ParseError>(
                    controller@,
                ),
                Err(error) => parse(cci_instructions@) == Err::<Directive, ParseError>(error),
            },
    {
        let text = cci_instructions.as_str();
        let chars = chars_of(text);
        let spans = line_spans(&chars);

        let header = chars_of("[destination]");
        let destination = match find_line(&chars, &spans, &header) {
            Some(at) => {
                if at + 1 < spans.len() && spans[at + 1].end > spans[at + 1].start {
                    copy_of(text, spans[at + 1])
                } else {
                    return Err(ParseError::MissingDestination);
                }
            },
            None => {
                return Err(ParseError::MissingDestination);
            },
        };

        let header = chars_of("[targets]");
        let targets = match find_line(&chars, &spans, &header) {
            Some(at) => {
                let end = section_end(&chars, &spans, at + 1);
                filled_texts(text, &spans, at + 1, end)
            },
            None => {
                return Err(ParseError::MissingTargetsSection);
            },
        };
        Ok(Controller { destination, targets })
    }

    /// The directory to copy to. It is not empty.
    pub fn destination(&self) -> (destination: String)
        ensures
            destination@ == self@.destination,
            is_filled(destination@),
    {
        proof {
            use_type_invariant(self);
        }
        self.destination.clone()
    }

    /// The targets, in the order of the document. None is empty.
    pub fn targets(&self) -> (targets: Vec<&str>)
        ensures
            targets@.len() == self@.targets.len(),
            forall|i: int|
                0 <= i < targets@.len() ==> (#[trigger] targets@[i])@ == self@.targets[i]
                    && is_filled(targets@[i]@),
    {
        proof {
            use_type_invariant(self);
        }
        let mut targets: Vec<&str> = Vec::new();
        let mut i: usize = 0;
        while i < self.targets.len()
            invariant
                i <= self.targets.len(),
                targets@.len() == i,
                forall|k: int| 0 <= k < i ==> (#[trigger] targets@[k])@ == self.targets@[k]@,
            decreases self.targets.len() - i,
        {
            targets.push(self.targets[i].as_str());
            i += 1;
        }
        targets
    }

    /// The targets as owned paths, in the order of the document.
    pub fn target_list(&self) -> (targets: Vec<String>)
        ensures
            targets.deep_view() == self@.targets,
            forall|i: int| 0 <= i < targets@.len() ==> is_filled(#[trigger] targets@[i]@),
    {
        proof {
            use_type_invariant(self);
        }
        let mut targets: Vec<String> = Vec::new();
        let mut i: usize = 0;
        while i < self.targets.len()
            invariant
                i <= self.targets.len(),
                targets@.len() == i,
                forall|k: int| 0 <= k < i ==> (#[trigger] targets@[k])@ == self.targets@[k]@,
            decreases self.targets.len() - i,
        {
            targets.push(self.targets[i].clone());
            i += 1;
        }
        assert(targets.deep_view() =~= self.targets.deep_view());
        targets
    }
}

} // verus!
