//! The machine that finds the literals marked for translation, line by line.

use crate::grammar::{
    closing_quote, delimiter_at, delimiter_search, fills_gap, first_step, followed, idle,
    is_punctuation, is_quote, is_space, lemma_step_advances, line_scan, lines_of, marker_at,
    marker_search, settled, step_at, unread, with_line, cut, Candidate, ScanModel, Seek, Step,
};
use crate::text::string_of;
use vstd::prelude::*;

verus! {

/// A literal that is complete and waits for its marker.
pub struct Pending {
    pub text: Vec<char>,
    /// Whether it is the text of a block.
    pub after_block: bool,
}

impl View for Pending {
    type V = Candidate;

    open spec fn view(&self) -> Candidate {
        Candidate { text: self.text@, after_block: self.after_block }
    }
}

/// The state of the machine between two lines.
pub enum ScanState {
    /// Outside any block; `pending` is the literal at the end of the lines so
    /// far whose marker may still come.
    Normal { pending: Option<Pending> },
    /// Inside a block that `delimiter` opened; `accumulator` is the text of its
    /// lines so far, `None` before the first.
    InsideMultilineLiteral { delimiter: char, accumulator: Option<Vec<char>> },
}

impl View for ScanState {
    type V = ScanModel;

    open spec fn view(&self) -> ScanModel {
        match self {
            ScanState::Normal { pending } => ScanModel::Normal {
                pending: match pending {
                    Some(waiting) => Some(waiting@),
                    None => None,
                },
            },
            ScanState::InsideMultilineLiteral { delimiter, accumulator } => {
                ScanModel::InsideMultilineLiteral {
                    quote: *delimiter,
                    body: match accumulator {
                        Some(text) => Some(text@),
                        None => None,
                    },
                }
            },
        }
    }
}

impl ScanState {
    /// The state at the start of a file.
    pub fn new() -> (state: ScanState)
        ensures
            state@ == idle(),
    {
        ScanState::Normal { pending: None }
    }
}

/// How the search for a marker ended.
enum Sought {
    Found { end: usize },
    Pending,
    Absent,
}

impl View for Sought {
    type V = Seek;

    closed spec fn view(&self) -> Seek {
        match self {
            Sought::Found { end } => Seek::Found { end: *end as int },
            Sought::Pending => Seek::Pending,
            Sought::Absent => Seek::Absent,
        }
    }
}

/// What the machine does next on a line.
enum Move {
    Skip { next: usize },
    Emit { literal: Vec<char>, next: usize },
    Stop { state: ScanState },
}

impl View for Move {
    type V = Step;

    closed spec fn view(&self) -> Step {
        match self {
            Move::Skip { next } => Step::Skip { next: *next as int },
            Move::Emit { literal, next } => Step::Emit { literal: literal@, next: *next as int },
            Move::Stop { state } => Step::Stop { state: state@ },
        }
    }
}

/// Tells whether `c` opens and closes a literal.
pub fn quote_char(c: char) -> (yes: bool)
    ensures
        yes == is_quote(c),
{
    c == '\'' || c == '"'
}

/// Tells whether `c` is white space.
pub fn space_char(c: char) -> (yes: bool)
    ensures
        yes == is_space(c),
{
    c == '\u{9}' || c == '\u{a}' || c == '\u{b}' || c == '\u{c}' || c == '\u{d}' || c == '\u{20}'
        || c == '\u{85}' || c == '\u{a0}' || c == '\u{1680}' || c == '\u{2000}' || c == '\u{2001}'
        || c == '\u{2002}' || c == '\u{2003}' || c == '\u{2004}' || c == '\u{2005}' || c
        == '\u{2006}' || c == '\u{2007}' || c == '\u{2008}' || c == '\u{2009}' || c == '\u{200a}'
        || c == '\u{2028}' || c == '\u{2029}' || c == '\u{202f}' || c == '\u{205f}' || c
        == '\u{3000}'
}

/// Tells whether `c` is an ASCII punctuation character other than the quotes.
pub fn punctuation_char(c: char) -> (yes: bool)
    ensures
        yes == is_punctuation(c),
{
    let n: u32 = c as u32;
    !quote_char(c) && ((0x21 <= n && n <= 0x2f) || (0x3a <= n && n <= 0x40) || (0x5b <= n && n
        <= 0x60) || (0x7b <= n && n <= 0x7e))
}

/// Tells whether `c` may stand between a literal and its marker.
pub fn gap_char(c: char, after_block: bool) -> (yes: bool)
    ensures
        yes == fills_gap(c, after_block),
{
    space_char(c) || (after_block && punctuation_char(c))
}

/// Tells whether the marker stands at `at`.
fn marker_here(line: &Vec<char>, at: usize) -> (yes: bool)
    requires
        at <= line.len(),
    ensures
        yes == marker_at(line@, at as int),
{
    line.len() - at >= 3 && line[at] == '.' && line[at + 1] == 't' && line[at + 2] == 'r'
}

/// Tells whether three quotes `quote` stand at `at`.
fn delimiter_here(line: &Vec<char>, at: usize, quote: char) -> (yes: bool)
    requires
        at <= line.len(),
    ensures
        yes == delimiter_at(line@, at as int, quote),
{
    line.len() - at >= 3 && line[at] == quote && line[at + 1] == quote && line[at + 2] == quote
}

/// Looks for the marker from `from` on.
fn seek_marker(line: &Vec<char>, from: usize, after_block: bool) -> (found: Sought)
    requires
        from <= line.len(),
    ensures
        found@ == marker_search(line@, from as int, after_block),
{
    let mut at: usize = from;
    while at < line.len()
        invariant
            from <= at <= line.len(),
            marker_search(line@, at as int, after_block) == marker_search(
                line@,
                from as int,
                after_block,
            ),
        decreases line.len() - at,
    {
        if marker_here(line, at) {
            return Sought::Found { end: at + 3 };
        }
        if !gap_char(line[at], after_block) {
            return Sought::Absent;
        }
        at += 1;
    }
    Sought::Pending
}

/// Looks for the quote that closes a literal, from `from` on.
fn find_closing_quote(line: &Vec<char>, from: usize, quote: char) -> (found: Option<usize>)
    requires
        from <= line.len(),
    ensures
        found.is_some() == closing_quote(line@, from as int, quote).is_some(),
        found matches Some(close) ==> closing_quote(line@, from as int, quote) == Some(
            close as int,
        ) && from <= close < line.len(),
{
    let mut at: usize = from;
    while at < line.len()
        invariant
            from <= at <= line.len(),
            closing_quote(line@, at as int, quote) == closing_quote(line@, from as int, quote),
        decreases line.len() - at,
    {
        if line[at] == quote {
            return Some(at);
        }
        if line[at] == '\\' && line.len() - at > 1 {
            at += 2;
        } else {
            at += 1;
        }
    }
    None
}

/// Looks for three quotes `quote`, from `from` on.
fn find_delimiter(line: &Vec<char>, from: usize, quote: char) -> (found: Option<usize>)
    requires
        from <= line.len(),
    ensures
        found.is_some() == delimiter_search(line@, from as int, quote).is_some(),
        found matches Some(close) ==> delimiter_search(line@, from as int, quote) == Some(
            close as int,
        ) && from <= close && close + 3 <= line.len(),
{
    let mut at: usize = from;
    while line.len() - at >= 3
        invariant
            from <= at <= line.len(),
            delimiter_search(line@, at as int, quote) == delimiter_search(
                line@,
                from as int,
                quote,
            ),
        decreases line.len() - at,
    {
        if delimiter_here(line, at, quote) {
            return Some(at);
        }
        at += 1;
    }
    None
}

/// The characters of `line` from `from` up to `to`.
fn part_of(line: &Vec<char>, from: usize, to: usize) -> (part: Vec<char>)
    requires
        from <= to <= line.len(),
    ensures
        part@ == line@.subrange(from as int, to as int),
{
    let mut part: Vec<char> = Vec::new();
    let mut at: usize = from;
    while at < to
        invariant
            from <= at <= to <= line.len(),
            part@ == line@.subrange(from as int, at as int),
        decreases to - at,
    {
        part.push(line[at]);
        at += 1;
    }
    part
}

/// Settles a complete literal `text` by what follows it from `from` on.
fn settle(
    line: &Vec<char>,
    text: Vec<char>,
    after_block: bool,
    from: usize,
    resume: usize,
) -> (step: Move)
    requires
        from <= line.len(),
    ensures
        step@ == settled(line@, text@, after_block, from as int, resume as int),
{
    match seek_marker(line, from, after_block) {
        Sought::Found { end } => Move::Emit { literal: text, next: end },
        Sought::Pending => Move::Stop {
            state: ScanState::Normal { pending: Some(Pending { text, after_block }) },
        },
        Sought::Absent => Move::Skip { next: resume },
    }
}

/// The step in normal mode at `at`.
fn step(line: &Vec<char>, at: usize) -> (step: Move)
    requires
        at < line.len(),
    ensures
        step@ == step_at(line@, at as int),
{
    let quote = line[at];
    if !quote_char(quote) {
        Move::Skip { next: at + 1 }
    } else if delimiter_here(line, at, quote) {
        match find_delimiter(line, at + 3, quote) {
            Some(close) => settle(line, Vec::new(), true, close + 3, close + 3),
            None => Move::Stop {
                state: ScanState::InsideMultilineLiteral { delimiter: quote, accumulator: None },
            },
        }
    } else {
        match find_closing_quote(line, at + 1, quote) {
            Some(close) => settle(line, part_of(line, at + 1, close), false, close + 1, at + 1),
            None => Move::Skip { next: at + 1 },
        }
    }
}

/// The text of a block after one more line.
fn add_line(accumulator: Option<Vec<char>>, line: &Vec<char>) -> (text: Vec<char>)
    ensures
        text@ == with_line(
            match accumulator {
                Some(held) => Some(held@),
                None => None,
            },
            line@,
        ),
{
    let mut text = match accumulator {
        Some(held) => {
            let mut held = held;
            held.push('\n');
            held
        },
        None => Vec::new(),
    };
    let ghost start = text@;
    let mut at: usize = 0;
    while at < line.len()
        invariant
            at <= line.len(),
            text@ == start + line@.take(at as int),
        decreases line.len() - at,
    {
        text.push(line[at]);
        at += 1;
    }
    assert(line@.take(at as int) == line@);
    text
}

/// The first step on a line that is reached in `state`.
fn open_line(state: ScanState, line: &Vec<char>) -> (step: Move)
    ensures
        step@ == first_step(state@, line@),
{
    match state {
        ScanState::InsideMultilineLiteral { delimiter, accumulator } => {
            match find_delimiter(line, 0, delimiter) {
                Some(close) => {
                    let text = match accumulator {
                        Some(held) => held,
                        None => Vec::new(),
                    };
                    settle(line, text, true, close + 3, close + 3)
                },
                None => Move::Stop {
                    state: ScanState::InsideMultilineLiteral {
                        delimiter,
                        accumulator: Some(add_line(accumulator, line)),
                    },
                },
            }
        },
        ScanState::Normal { pending } => match pending {
            Some(waiting) => settle(line, waiting.text, waiting.after_block, 0, 0),
            None => Move::Skip { next: 0 },
        },
    }
}

/// Reads one line in `state`: the literals found on it are added to `out`,
/// and the state after the line is returned.
pub fn scan_line(state: ScanState, line: &Vec<char>, out: &mut Vec<String>) -> (after: ScanState)
    ensures
        final(out).deep_view() == old(out).deep_view() + line_scan(state@, line@).literals,
        after@ == line_scan(state@, line@).state,
{
    let ghost start = state@;
    let ghost whole = line_scan(start, line@);
    let mut current = open_line(state, line);
    assert(old(out).deep_view() + whole.literals == out.deep_view() + followed(
        line@,
        current@,
    ).literals);
    loop
        invariant
            whole == line_scan(start, line@),
            start == state@,
            old(out).deep_view() + whole.literals == out.deep_view() + followed(
                line@,
                current@,
            ).literals,
            whole.state == followed(line@, current@).state,
        decreases unread(line@, current@),
    {
        let ghost held = out.deep_view();
        match current {
            Move::Stop { state } => {
                assert(held + Seq::<Seq<char>>::empty() == held);
                return state;
            },
            Move::Skip { next } => {
                if next >= line.len() {
                    assert(held + Seq::<Seq<char>>::empty() == held);
                    return ScanState::new();
                }
                proof {
                    lemma_step_advances(line@, next as int);
                }
                current = step(line, next);
            },
            Move::Emit { literal, next } => {
                out.push(string_of(&literal));
                assert(out.deep_view() == held.push(literal@));
                if next >= line.len() {
                    assert(held + seq![literal@] == held.push(literal@));
                    return ScanState::new();
                }
                proof {
                    lemma_step_advances(line@, next as int);
                    let rest = followed(line@, step_at(line@, next as int)).literals;
                    assert(held + (seq![literal@] + rest) == held.push(literal@) + rest);
                }
                current = step(line, next);
            },
        }
    }
}

/// The sequences of characters that `lines` hold.
pub open spec fn line_views(lines: Seq<Vec<char>>) -> Seq<Seq<char>> {
    Seq::new(lines.len(), |i: int| lines[i]@)
}

/// Cuts `text` into its lines.
pub fn split_lines(text: &Vec<char>) -> (lines: Vec<Vec<char>>)
    ensures
        line_views(lines@) == lines_of(text@),
{
    let mut lines: Vec<Vec<char>> = Vec::new();
    let mut rest: Vec<char> = Vec::new();
    let mut at: usize = 0;
    assert(line_views(lines@) == cut(text@.take(0)).lines);
    while at < text.len()
        invariant
            at <= text.len(),
            line_views(lines@) == cut(text@.take(at as int)).lines,
            rest@ == cut(text@.take(at as int)).rest,
        decreases text.len() - at,
    {
        let ghost held = line_views(lines@);
        assert(text@.take(at + 1).drop_last() == text@.take(at as int));
        if text[at] == '\n' {
            if rest.len() > 0 && rest[rest.len() - 1] == '\r' {
                rest.pop();
            }
            let ghost line = rest@;
            lines.push(rest);
            rest = Vec::new();
            assert(line_views(lines@) == held.push(line));
        } else {
            rest.push(text[at]);
        }
        at += 1;
    }
    assert(text@.take(at as int) == text@);
    if rest.len() > 0 {
        let ghost held = line_views(lines@);
        let ghost line = rest@;
        lines.push(rest);
        assert(line_views(lines@) == held.push(line));
    }
    lines
}

} // verus!
