//! Which string literals of Dart source text are marked for translation with
//! `.tr`: the rules, as functions on sequences of characters.
//!
//! The text is read line by line, from left to right, by a machine with two
//! modes. In normal mode it looks for quoted literals that open and close on
//! one line and for the three quotes that open a block; inside a block it only
//! looks for the three quotes that close it. A literal counts where the marker
//! follows it, on the same line or at the start of a later one.
//!
//! Where more than one reading is possible, the machine decides as follows. A
//! block whose closing quotes never come yields nothing, and neither do the
//! lines that it swallowed. A literal that waits for its marker at the end of
//! a line never stands in the way of the next line: if that line does not
//! start with the marker, the waiting literal is given up and the line is read
//! as any other, so that a literal that is complete on it is found.

use vstd::prelude::*;

verus! {

/// Whether `c` opens and closes a literal.
pub open spec fn is_quote(c: char) -> bool {
    c == '\'' || c == '"'
}

/// Whether `c` is white space, as Unicode defines it.
pub open spec fn is_space(c: char) -> bool {
    ||| c == '\u{9}'
    ||| c == '\u{a}'
    ||| c == '\u{b}'
    ||| c == '\u{c}'
    ||| c == '\u{d}'
    ||| c == '\u{20}'
    ||| c == '\u{85}'
    ||| c == '\u{a0}'
    ||| c == '\u{1680}'
    ||| c == '\u{2000}'
    ||| c == '\u{2001}'
    ||| c == '\u{2002}'
    ||| c == '\u{2003}'
    ||| c == '\u{2004}'
    ||| c == '\u{2005}'
    ||| c == '\u{2006}'
    ||| c == '\u{2007}'
    ||| c == '\u{2008}'
    ||| c == '\u{2009}'
    ||| c == '\u{200a}'
    ||| c == '\u{2028}'
    ||| c == '\u{2029}'
    ||| c == '\u{202f}'
    ||| c == '\u{205f}'
    ||| c == '\u{3000}'
}

/// Whether `c` is an ASCII punctuation character other than the two quotes.
pub open spec fn is_punctuation(c: char) -> bool {
    let n = c as u32;
    &&& !is_quote(c)
    &&& (0x21 <= n <= 0x2f || 0x3a <= n <= 0x40 || 0x5b <= n <= 0x60 || 0x7b <= n <= 0x7e)
}

/// Whether `c` may stand between a literal and its marker: white space after
/// any literal, and punctuation too after the closing quotes of a block.
pub open spec fn fills_gap(c: char, after_block: bool) -> bool {
    is_space(c) || (after_block && is_punctuation(c))
}

/// Whether the marker `.tr` stands at `i`.
pub open spec fn marker_at(line: Seq<char>, i: int) -> bool {
    &&& 0 <= i
    &&& i + 3 <= line.len()
    &&& line[i] == '.'
    &&& line[i + 1] == 't'
    &&& line[i + 2] == 'r'
}

/// Whether three quotes `quote` stand at `i`.
pub open spec fn delimiter_at(line: Seq<char>, i: int, quote: char) -> bool {
    &&& 0 <= i
    &&& i + 3 <= line.len()
    &&& line[i] == quote
    &&& line[i + 1] == quote
    &&& line[i + 2] == quote
}

/// How the search for a marker ends.
pub enum Seek {
    /// The marker was found; `end` is the place after it.
    Found { end: int },
    /// The line ran out before anything but the gap was seen.
    Pending,
    /// Something else than the marker follows the gap.
    Absent,
}

/// Looks for the marker from `from` on: it must be the first thing after
/// characters that fill the gap.
pub open spec fn marker_search(line: Seq<char>, from: int, after_block: bool) -> Seek
    decreases line.len() - from,
{
    if from < 0 || from >= line.len() {
        Seek::Pending
    } else if marker_at(line, from) {
        Seek::Found { end: from + 3 }
    } else if fills_gap(line[from], after_block) {
        marker_search(line, from + 1, after_block)
    } else {
        Seek::Absent
    }
}

/// The place of the first `quote` at or after `from` that no backslash
/// escapes: a backslash takes the character after it with it.
pub open spec fn closing_quote(line: Seq<char>, from: int, quote: char) -> Option<int>
    decreases line.len() - from,
{
    if from < 0 || from >= line.len() {
        None
    } else if line[from] == quote {
        Some(from)
    } else if line[from] == '\\' && from + 1 < line.len() {
        closing_quote(line, from + 2, quote)
    } else {
        closing_quote(line, from + 1, quote)
    }
}

/// The first place at or after `from` where three quotes `quote` stand.
pub open spec fn delimiter_search(line: Seq<char>, from: int, quote: char) -> Option<int>
    decreases line.len() - from,
{
    if from < 0 || from + 3 > line.len() {
        None
    } else if delimiter_at(line, from, quote) {
        Some(from)
    } else {
        delimiter_search(line, from + 1, quote)
    }
}

/// A literal that is complete and waits for its marker.
pub struct Candidate {
    pub text: Seq<char>,
    /// Whether it is the text of a block.
    pub after_block: bool,
}

/// The state of the machine between two lines.
pub enum ScanModel {
    /// Outside any block; `pending` is the literal at the end of the lines so
    /// far whose marker may still come.
    Normal { pending: Option<Candidate> },
    /// Inside a block that `quote` opened; `body` is the text of its lines so
    /// far, `None` before the first.
    InsideMultilineLiteral { quote: char, body: Option<Seq<char>> },
}

/// The state in which nothing is open and nothing waits.
pub open spec fn idle() -> ScanModel {
    ScanModel::Normal { pending: None }
}

/// What the machine does next on a line.
pub enum Step {
    /// It goes on reading at `next`.
    Skip { next: int },
    /// It gives out `literal` and goes on reading at `next`.
    Emit { literal: Seq<char>, next: int },
    /// It is done with the line and keeps `state` for the next.
    Stop { state: ScanModel },
}

/// The text of a block after one more line: its lines are joined by line
/// feeds.
pub open spec fn with_line(body: Option<Seq<char>>, line: Seq<char>) -> Seq<char> {
    match body {
        Some(text) => text + seq!['\n'] + line,
        None => line,
    }
}

/// The text of a block when it closes.
pub open spec fn block_text(body: Option<Seq<char>>) -> Seq<char> {
    match body {
        Some(text) => text,
        None => Seq::empty(),
    }
}

/// What follows a complete literal `text`: the marker is looked for from
/// `from` on. Found, the literal is given out; where the line runs out first,
/// the literal waits; otherwise it is given up and reading goes on at `resume`.
pub open spec fn settled(
    line: Seq<char>,
    text: Seq<char>,
    after_block: bool,
    from: int,
    resume: int,
) -> Step {
    match marker_search(line, from, after_block) {
        Seek::Found { end } => Step::Emit { literal: text, next: end },
        Seek::Pending => Step::Stop {
            state: ScanModel::Normal { pending: Some(Candidate { text, after_block }) },
        },
        Seek::Absent => Step::Skip { next: resume },
    }
}

/// The step in normal mode at `at`. Three quotes open a block; where its
/// closing quotes stand on the same line, the block is complete and empty. One
/// quote opens a literal that the next such quote without a backslash before it
/// closes; a literal without marker is given up and reading goes on after its
/// opening quote.
pub open spec fn step_at(line: Seq<char>, at: int) -> Step
    recommends
        0 <= at < line.len(),
{
    let quote = line[at];
    if !is_quote(quote) {
        Step::Skip { next: at + 1 }
    } else if delimiter_at(line, at, quote) {
        match delimiter_search(line, at + 3, quote) {
            Some(close) => settled(line, Seq::empty(), true, close + 3, close + 3),
            None => Step::Stop { state: ScanModel::InsideMultilineLiteral { quote, body: None } },
        }
    } else {
        match closing_quote(line, at + 1, quote) {
            Some(close) => settled(line, line.subrange(at + 1, close), false, close + 1, at + 1),
            None => Step::Skip { next: at + 1 },
        }
    }
}

/// The first step on a line that is reached in `state`. Inside a block the
/// line either closes it or becomes part of its text. A waiting literal is
/// settled by what the line starts with.
pub open spec fn first_step(state: ScanModel, line: Seq<char>) -> Step {
    match state {
        ScanModel::InsideMultilineLiteral { quote, body } => match delimiter_search(
            line,
            0,
            quote,
        ) {
            Some(close) => settled(line, block_text(body), true, close + 3, close + 3),
            None => Step::Stop {
                state: ScanModel::InsideMultilineLiteral {
                    quote,
                    body: Some(with_line(body, line)),
                },
            },
        },
        ScanModel::Normal { pending } => match pending {
            Some(candidate) => settled(line, candidate.text, candidate.after_block, 0, 0),
            None => Step::Skip { next: 0 },
        },
    }
}

/// What a line gives: the literals found on it, in their order, and the state
/// after it.
pub struct LineScan {
    pub literals: Seq<Seq<char>>,
    pub state: ScanModel,
}

/// How much of the line is still to be read after `step`.
pub open spec fn unread(line: Seq<char>, step: Step) -> nat {
    match step {
        Step::Skip { next } | Step::Emit { next, .. } => if 0 <= next < line.len() {
            (line.len() - next) as nat
        } else {
            0
        },
        Step::Stop { .. } => 0,
    }
}

/// What the rest of a line gives, from `step` on.
pub open spec fn followed(line: Seq<char>, step: Step) -> LineScan
    decreases unread(line, step),
    via followed_decreases
{
    match step {
        Step::Stop { state } => LineScan { literals: Seq::empty(), state },
        Step::Skip { next } => if 0 <= next < line.len() {
            followed(line, step_at(line, next))
        } else {
            LineScan { literals: Seq::empty(), state: idle() }
        },
        Step::Emit { literal, next } => if 0 <= next < line.len() {
            let rest = followed(line, step_at(line, next));
            LineScan { literals: seq![literal] + rest.literals, state: rest.state }
        } else {
            LineScan { literals: seq![literal], state: idle() }
        },
    }
}

#[via_fn]
proof fn followed_decreases(line: Seq<char>, step: Step) {
    match step {
        Step::Stop { .. } => {},
        Step::Skip { next } | Step::Emit { next, .. } => {
            if 0 <= next < line.len() {
                lemma_step_advances(line, next);
            }
        },
    }
}

/// What a line gives that is reached in `state`.
pub open spec fn line_scan(state: ScanModel, line: Seq<char>) -> LineScan {
    followed(line, first_step(state, line))
}

/// What `lines` give, read one after the other from `state` on.
pub open spec fn lines_scan(state: ScanModel, lines: Seq<Seq<char>>) -> LineScan
    decreases lines.len(),
{
    if lines.len() == 0 {
        LineScan { literals: Seq::empty(), state }
    } else {
        let before = lines_scan(state, lines.drop_last());
        let last = line_scan(before.state, lines.last());
        LineScan { literals: before.literals + last.literals, state: last.state }
    }
}

/// A line without the carriage return at its end, if it has one.
pub open spec fn without_return(line: Seq<char>) -> Seq<char> {
    if line.len() > 0 && line.last() == '\r' {
        line.drop_last()
    } else {
        line
    }
}

/// A text cut at its line feeds.
pub struct Cut {
    /// The lines that a line feed ends, without it and without a carriage
    /// return before it.
    pub lines: Seq<Seq<char>>,
    /// What follows the last line feed.
    pub rest: Seq<char>,
}

/// `text` cut at its line feeds.
pub open spec fn cut(text: Seq<char>) -> Cut
    decreases text.len(),
{
    if text.len() == 0 {
        Cut { lines: Seq::empty(), rest: Seq::empty() }
    } else {
        let before = cut(text.drop_last());
        if text.last() == '\n' {
            Cut { lines: before.lines.push(without_return(before.rest)), rest: Seq::empty() }
        } else {
            Cut { lines: before.lines, rest: before.rest.push(text.last()) }
        }
    }
}

/// The lines of `text`: a line ends with a line feed, or with a carriage
/// return and a line feed, and what follows the last line feed is a line
/// unless it is empty.
pub open spec fn lines_of(text: Seq<char>) -> Seq<Seq<char>> {
    let parts = cut(text);
    if parts.rest.len() > 0 {
        parts.lines.push(parts.rest)
    } else {
        parts.lines
    }
}

/// The literals of `text` that are marked for translation, in their order.
pub open spec fn literals_of(text: Seq<char>) -> Seq<Seq<char>> {
    lines_scan(idle(), lines_of(text)).literals
}

/// A marker is found after the place from which it was looked for.
pub proof fn lemma_marker_search_end(line: Seq<char>, from: int, after_block: bool)
    requires
        0 <= from,
    ensures
        marker_search(line, from, after_block) matches Seek::Found { end } ==> from + 3 <= end
            <= line.len(),
    decreases line.len() - from,
{
    if from < line.len() && !marker_at(line, from) && fills_gap(line[from], after_block) {
        lemma_marker_search_end(line, from + 1, after_block);
    }
}

/// A closing quote is found at or after the place from which it was looked
/// for, and it is the quote.
pub proof fn lemma_closing_quote_place(line: Seq<char>, from: int, quote: char)
    requires
        0 <= from,
    ensures
        closing_quote(line, from, quote) matches Some(close) ==> from <= close < line.len()
            && line[close] == quote,
    decreases line.len() - from,
{
    if from < line.len() && line[from] != quote {
        if line[from] == '\\' && from + 1 < line.len() {
            lemma_closing_quote_place(line, from + 2, quote);
        } else {
            lemma_closing_quote_place(line, from + 1, quote);
        }
    }
}

/// Three quotes are found at or after the place from which they were looked
/// for, and nowhere between.
pub proof fn lemma_delimiter_search_place(line: Seq<char>, from: int, quote: char)
    requires
        0 <= from,
    ensures
        delimiter_search(line, from, quote) matches Some(close) ==> from <= close
            && delimiter_at(line, close, quote),
        delimiter_search(line, from, quote) is None ==> forall|i: int|
            from <= i ==> !delimiter_at(line, i, quote),
        delimiter_search(line, from, quote) matches Some(close) ==> forall|i: int|
            from <= i < close ==> !delimiter_at(line, i, quote),
    decreases line.len() - from,
{
    if from + 3 <= line.len() && !delimiter_at(line, from, quote) {
        lemma_delimiter_search_place(line, from + 1, quote);
    }
}

/// A step in normal mode leads to a later place of the line.
pub proof fn lemma_step_advances(line: Seq<char>, at: int)
    requires
        0 <= at < line.len(),
    ensures
        step_at(line, at) matches Step::Skip { next } ==> at < next <= line.len(),
        step_at(line, at) matches Step::Emit { next, .. } ==> at < next <= line.len(),
{
    let quote = line[at];
    if is_quote(quote) {
        if delimiter_at(line, at, quote) {
            lemma_delimiter_search_place(line, at + 3, quote);
            match delimiter_search(line, at + 3, quote) {
                Some(close) => {
                    lemma_marker_search_end(line, close + 3, true);
                },
                None => {},
            }
        } else {
            lemma_closing_quote_place(line, at + 1, quote);
            match closing_quote(line, at + 1, quote) {
                Some(close) => {
                    lemma_marker_search_end(line, close + 1, false);
                },
                None => {},
            }
        }
    }
}

/// Reading two runs of lines one after the other is reading them in one run.
pub proof fn lemma_lines_scan_in_turn(
    state: ScanModel,
    first: Seq<Seq<char>>,
    second: Seq<Seq<char>>,
)
    ensures
        lines_scan(state, first + second).literals == lines_scan(state, first).literals
            + lines_scan(lines_scan(state, first).state, second).literals,
        lines_scan(state, first + second).state == lines_scan(
            lines_scan(state, first).state,
            second,
        ).state,
    decreases second.len(),
{
    let middle = lines_scan(state, first);
    if second.len() == 0 {
        assert(first + second == first);
        assert(middle.literals + Seq::<Seq<char>>::empty() == middle.literals);
    } else {
        lemma_lines_scan_in_turn(state, first, second.drop_last());
        assert((first + second).drop_last() == first + second.drop_last());
        assert((first + second).last() == second.last());
        let front = lines_scan(middle.state, second.drop_last());
        let last = line_scan(front.state, second.last());
        assert((middle.literals + front.literals) + last.literals == middle.literals + (
        front.literals + last.literals));
    }
}

/// Inside a block, lines without its closing quotes give no literal and leave
/// the block open.
pub proof fn lemma_unclosed_block(state: ScanModel, lines: Seq<Seq<char>>)
    requires
        state is InsideMultilineLiteral,
        forall|i: int|
            0 <= i < lines.len() ==> delimiter_search(#[trigger] lines[i], 0, state->quote)
                is None,
    ensures
        lines_scan(state, lines).literals == Seq::<Seq<char>>::empty(),
        lines_scan(state, lines).state is InsideMultilineLiteral,
        lines_scan(state, lines).state->quote == state->quote,
    decreases lines.len(),
{
    if lines.len() > 0 {
        let front = lines.drop_last();
        assert forall|i: int| 0 <= i < front.len() implies delimiter_search(
            #[trigger] front[i],
            0,
            state->quote,
        ) is None by {
            assert(front[i] == lines[i]);
        }
        lemma_unclosed_block(state, front);
        assert(delimiter_search(lines[lines.len() - 1], 0, state->quote) is None);
        let before = lines_scan(state, front);
        assert(before.literals + Seq::<Seq<char>>::empty() == before.literals);
    }
}

/// Where the lines `head` end inside a block and no line of `tail` has its
/// closing quotes, the block gives nothing: the literals of `head` and `tail`
/// together are those that were found in `head`, before the block opened.
pub proof fn lemma_unterminated_literal(head: Seq<Seq<char>>, tail: Seq<Seq<char>>)
    requires
        lines_scan(idle(), head).state is InsideMultilineLiteral,
        forall|i: int|
            0 <= i < tail.len() ==> delimiter_search(
                #[trigger] tail[i],
                0,
                lines_scan(idle(), head).state->quote,
            ) is None,
    ensures
        lines_scan(idle(), head + tail).literals == lines_scan(idle(), head).literals,
{
    let middle = lines_scan(idle(), head);
    lemma_lines_scan_in_turn(idle(), head, tail);
    lemma_unclosed_block(middle.state, tail);
    assert(middle.literals + Seq::<Seq<char>>::empty() == middle.literals);
}

/// Cutting a text that follows a line feed, or nothing, cuts it by itself.
pub proof fn lemma_cut_in_turn(first: Seq<char>, second: Seq<char>)
    requires
        first.len() == 0 || first.last() == '\n',
    ensures
        cut(first + second).lines == cut(first).lines + cut(second).lines,
        cut(first + second).rest == cut(second).rest,
    decreases second.len(),
{
    if second.len() == 0 {
        assert(first + second == first);
        assert(cut(first).lines + Seq::<Seq<char>>::empty() == cut(first).lines);
    } else {
        lemma_cut_in_turn(first, second.drop_last());
        assert((first + second).drop_last() == first + second.drop_last());
        assert((first + second).last() == second.last());
        let front = cut(second.drop_last());
        if second.last() == '\n' {
            assert((cut(first).lines + front.lines).push(without_return(front.rest)) == cut(
                first,
            ).lines + front.lines.push(without_return(front.rest)));
        }
    }
}

/// The lines of a text that follows a line feed, or nothing, come after the
/// lines before it.
pub proof fn lemma_lines_in_turn(first: Seq<char>, second: Seq<char>)
    requires
        first.len() == 0 || first.last() == '\n',
    ensures
        lines_of(first + second) == lines_of(first) + lines_of(second),
{
    lemma_cut_in_turn(first, second);
    let parts = cut(second);
    if parts.rest.len() > 0 {
        assert((cut(first).lines + parts.lines).push(parts.rest) == cut(first).lines
            + parts.lines.push(parts.rest));
    }
}

/// A text that ends inside a block gives the literals that were found before
/// the block opened: where the lines of `head` leave a block open, and no line
/// of `tail` has its closing quotes, `head` and `tail` together give what
/// `head` gives.
pub proof fn lemma_unterminated_text(head: Seq<char>, tail: Seq<char>)
    requires
        head.len() == 0 || head.last() == '\n',
        lines_scan(idle(), lines_of(head)).state is InsideMultilineLiteral,
        forall|i: int|
            0 <= i < lines_of(tail).len() ==> delimiter_search(
                #[trigger] lines_of(tail)[i],
                0,
                lines_scan(idle(), lines_of(head)).state->quote,
            ) is None,
    ensures
        literals_of(head + tail) == literals_of(head),
{
    lemma_lines_in_turn(head, tail);
    lemma_unterminated_literal(lines_of(head), lines_of(tail));
}

} // verus!
