//! The executable segmenter.
use crate::model::{emitted, flush, is_white_space, scan_from, segments, step, Scan, Segment};
use vstd::prelude::*;

verus! {

/// Relies on `String::push`: appends the character at the end.
pub assume_specification[ String::push ](s: &mut String, ch: char)
    ensures
        final(s)@ == old(s)@.push(ch),
;

/// Relies on `char::is_whitespace`: true exactly of the Unicode `White_Space` characters.
pub assume_specification[ char::is_whitespace ](c: char) -> (r: bool)
    ensures
        r == is_white_space(c),
;

/// One element of segmented text.
#[derive(Debug, PartialEq, Eq)]
pub enum TextElement {
    Paragraph(String),
    ListEntry(String),
}

impl View for TextElement {
    type V = Segment;

    open spec fn view(&self) -> Segment {
        match self {
            TextElement::Paragraph(s) => Segment::Paragraph(s@),
            TextElement::ListEntry(s) => Segment::ListEntry(s@),
        }
    }
}

/// The mathematical value of a sequence of elements.
pub open spec fn elements_view(v: Seq<TextElement>) -> Seq<Segment> {
    v.map_values(|e: TextElement| e@)
}

enum State {
    Init,
    InParagraph { text: String, last: char },
    InListEntry { text: String, text_started: bool },
}

impl View for State {
    type V = Scan;

    closed spec fn view(&self) -> Scan {
        match self {
            State::Init => Scan::Init,
            State::InParagraph { text, last } => Scan::InParagraph { text: text@, last: *last },
            State::InListEntry { text, text_started } => Scan::InListEntry {
                text: text@,
                started: *text_started,
            },
        }
    }
}

fn push_element(result: &mut Vec<TextElement>, e: TextElement)
    ensures
        elements_view(final(result)@) == elements_view(old(result)@).push(e@),
{
    result.push(e);
    assert(elements_view(result@) =~= elements_view(old(result)@).push(e@));
}

/// Reads one character: returns the next state and appends what it completes.
fn advance(state: State, c: char, result: &mut Vec<TextElement>) -> (next: State)
    ensures
        next@ == step(state@, c),
        elements_view(final(result)@) == elements_view(old(result)@) + emitted(state@, c),
{
    let ghost st = state@;
    let ghost before = elements_view(result@);
    match state {
        State::Init => {
            assert(before + emitted(st, c) =~= before);
            if c == '\n' || c == ' ' {
                State::Init
            } else if c == '-' || c == '*' {
                State::InListEntry { text: String::new(), text_started: false }
            } else {
                let mut text = String::new();
                text.push(c);
                State::InParagraph { text, last: c }
            }
        },
        State::InParagraph { mut text, last } => {
            if c == '\n' && last == '\n' {
                push_element(result, TextElement::Paragraph(text));
                assert(before.push(Segment::Paragraph(st->InParagraph_text)) =~= before + emitted(st, c));
                State::Init
            } else if c == '\n' {
                assert(before + emitted(st, c) =~= before);
                State::InParagraph { text, last: '\n' }
            } else if c == ' ' && last == '\n' {
                assert(before + emitted(st, c) =~= before);
                State::InParagraph { text, last }
            } else if (c == '-' || c == '*') && last == '\n' {
                push_element(result, TextElement::Paragraph(text));
                assert(before.push(Segment::Paragraph(st->InParagraph_text)) =~= before + emitted(st, c));
                State::InListEntry { text: String::new(), text_started: false }
            } else {
                assert(before + emitted(st, c) =~= before);
                if last == '\n' {
                    text.push(' ');
                }
                text.push(c);
                State::InParagraph { text, last: c }
            }
        },
        State::InListEntry { mut text, text_started } => {
            if c == '\n' {
                push_element(result, TextElement::ListEntry(text));
                assert(before.push(Segment::ListEntry(st->InListEntry_text)) =~= before + emitted(st, c));
                State::Init
            } else {
                assert(before + emitted(st, c) =~= before);
                if text_started {
                    text.push(c);
                    State::InListEntry { text, text_started }
                } else if c.is_whitespace() {
                    State::InListEntry { text, text_started }
                } else {
                    text.push(c);
                    State::InListEntry { text, text_started: true }
                }
            }
        },
    }
}

/// Appends the element still open in `state`, if any.
fn finish(state: State, result: &mut Vec<TextElement>)
    ensures
        elements_view(final(result)@) == elements_view(old(result)@) + flush(state@),
{
    let ghost before = elements_view(result@);
    match state {
        State::Init => {
            assert(before + flush(state@) =~= before);
        },
        State::InParagraph { text, .. } => {
            let ghost t = text@;
            push_element(result, TextElement::Paragraph(text));
            assert(before.push(Segment::Paragraph(t)) =~= before + flush(state@));
        },
        State::InListEntry { text, .. } => {
            let ghost t = text@;
            push_element(result, TextElement::ListEntry(text));
            assert(before.push(Segment::ListEntry(t)) =~= before + flush(state@));
        },
    }
}

/// Splits `raw` into paragraphs and list entries, in order of appearance.
pub fn parse(raw: &str) -> (r: Vec<TextElement>)
    ensures
        elements_view(r@) == segments(raw@),
{
    let mut state = State::Init;
    let mut result: Vec<TextElement> = Vec::new();
    for c in it: raw.chars()
        invariant
            it.seq() == raw@,
            scan_from(Scan::Init, it.seq().take(it.index() as int)) == (
                state@,
                elements_view(result@),
            ),
    {
        let ghost i = it.index() as int;
        assert(it.seq().take(i + 1).drop_last() =~= it.seq().take(i));
        state = advance(state, c, &mut result);
    }
    assert(raw@.take(raw@.len() as int) =~= raw@);
    finish(state, &mut result);
    result
}

} // verus!
