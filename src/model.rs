//! The mathematical model of segmentation: a left-to-right state machine over
//! characters, and the sequence of segments it emits.
use vstd::prelude::*;

verus! {

/// One element of a segmentation, as a mathematical value.
pub enum Segment {
    Paragraph(Seq<char>),
    ListEntry(Seq<char>),
}

/// The characters that introduce a list entry at the start of a line.
pub open spec fn is_marker(c: char) -> bool {
    c == '-' || c == '*'
}

/// The characters with the Unicode `White_Space` property.
pub open spec fn is_white_space(c: char) -> bool {
    let n = c as u32;
    ||| 0x09 <= n <= 0x0D
    ||| n == 0x20
    ||| n == 0x85
    ||| n == 0xA0
    ||| n == 0x1680
    ||| 0x2000 <= n <= 0x200A
    ||| n == 0x2028
    ||| n == 0x2029
    ||| n == 0x202F
    ||| n == 0x205F
    ||| n == 0x3000
}

/// The state of the segmenter between two characters.
pub enum Scan {
    /// Between elements: nothing is being accumulated.
    Init,
    /// Inside a paragraph; `last` is `'\n'` while a line break is pending.
    InParagraph { text: Seq<char>, last: char },
    /// Inside a list entry; `started` once its first non-blank character came.
    InListEntry { text: Seq<char>, started: bool },
}

/// The state after reading `c` in state `st`.
pub open spec fn step(st: Scan, c: char) -> Scan {
    match st {
        Scan::Init => {
            if c == '\n' || c == ' ' {
                Scan::Init
            } else if is_marker(c) {
                Scan::InListEntry { text: seq![], started: false }
            } else {
                Scan::InParagraph { text: seq![c], last: c }
            }
        },
        Scan::InParagraph { text, last } => {
            if c == '\n' {
                if last == '\n' {
                    Scan::Init
                } else {
                    Scan::InParagraph { text, last: '\n' }
                }
            } else if last == '\n' && c == ' ' {
                st
            } else if last == '\n' && is_marker(c) {
                Scan::InListEntry { text: seq![], started: false }
            } else if last == '\n' {
                Scan::InParagraph { text: text.push(' ').push(c), last: c }
            } else {
                Scan::InParagraph { text: text.push(c), last: c }
            }
        },
        Scan::InListEntry { text, started } => {
            if c == '\n' {
                Scan::Init
            } else if started {
                Scan::InListEntry { text: text.push(c), started }
            } else if is_white_space(c) {
                st
            } else {
                Scan::InListEntry { text: text.push(c), started: true }
            }
        },
    }
}

/// The segments completed by reading `c` in state `st` (none or one).
pub open spec fn emitted(st: Scan, c: char) -> Seq<Segment> {
    match st {
        Scan::Init => seq![],
        Scan::InParagraph { text, last } => {
            if last == '\n' && (c == '\n' || is_marker(c)) {
                seq![Segment::Paragraph(text)]
            } else {
                seq![]
            }
        },
        Scan::InListEntry { text, .. } => {
            if c == '\n' {
                seq![Segment::ListEntry(text)]
            } else {
                seq![]
            }
        },
    }
}

/// The segment still open in `st` when the input ends.
pub open spec fn flush(st: Scan) -> Seq<Segment> {
    match st {
        Scan::Init => seq![],
        Scan::InParagraph { text, .. } => seq![Segment::Paragraph(text)],
        Scan::InListEntry { text, .. } => seq![Segment::ListEntry(text)],
    }
}

/// Runs the machine from `st` over `s`: the final state and what was emitted.
pub open spec fn scan_from(st: Scan, s: Seq<char>) -> (Scan, Seq<Segment>)
    decreases s.len(),
{
    if s.len() == 0 {
        (st, seq![])
    } else {
        let (prev, out) = scan_from(st, s.drop_last());
        (step(prev, s.last()), out + emitted(prev, s.last()))
    }
}

/// The segmentation of `s`: what the machine emits from `Init`, then the flush.
pub open spec fn segments(s: Seq<char>) -> Seq<Segment> {
    let (st, out) = scan_from(Scan::Init, s);
    out + flush(st)
}

} // verus!
