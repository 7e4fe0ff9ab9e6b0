//! Layout of segmented text as lines for a fixed-width display: paragraphs
//! wrapped and indented, list entries behind a dash.
use crate::model::Segment;
use crate::text::{elements_view, TextElement};
use vstd::prelude::*;
use vstd::string::StringExecFns;

verus! {

/// The display width that paragraphs are wrapped to.
pub const WRAP_WIDTH: usize = 70;

/// The lines that `textwrap::wrap` makes of `text` at `width` columns.
pub uninterp spec fn wrapped(text: Seq<char>, width: usize) -> Seq<Seq<char>>;

/// The texts of a sequence of strings.
pub open spec fn strings_view(v: Seq<String>) -> Seq<Seq<char>> {
    v.map_values(|s: String| s@)
}

/// Relies on `textwrap::wrap` with its default options: the lines depend on
/// the text and the width alone.
#[verifier::external_body]
fn wrap_text(text: &String, width: usize) -> (r: Vec<String>)
    ensures
        strings_view(r@) == wrapped(text@, width),
{
    textwrap::wrap(text, width).into_iter().map(|l| l.into_owned()).collect()
}

/// The indentation in front of every rendered line.
pub open spec fn indent() -> Seq<char> {
    seq![' ', ' ', ' ']
}

/// A paragraph's block: each of its wrapped lines indented, then a blank line.
pub open spec fn paragraph_lines(wrapped_lines: Seq<Seq<char>>) -> Seq<Seq<char>> {
    wrapped_lines.map_values(|l: Seq<char>| indent() + l).push(seq![])
}

/// A list entry's line: indented, behind a dash.
pub open spec fn entry_text_line(text: Seq<char>) -> Seq<char> {
    indent() + seq!['-', ' '] + text
}

/// The lines of one element.
pub open spec fn element_lines(e: Segment) -> Seq<Seq<char>> {
    match e {
        Segment::Paragraph(t) => paragraph_lines(wrapped(t, WRAP_WIDTH)),
        Segment::ListEntry(t) => seq![entry_text_line(t)],
    }
}

/// The lines of a sequence of elements, one block after the other.
pub open spec fn rendered(es: Seq<Segment>) -> Seq<Seq<char>>
    decreases es.len(),
{
    if es.len() == 0 {
        seq![]
    } else {
        rendered(es.drop_last()) + element_lines(es.last())
    }
}

/// Builds a paragraph's block from its wrapped lines.
pub fn paragraph_block(wrapped_lines: &Vec<String>) -> (r: Vec<String>)
    ensures
        strings_view(r@) == paragraph_lines(strings_view(wrapped_lines@)),
{
    let mut r: Vec<String> = Vec::new();
    let mut i: usize = 0;
    while i < wrapped_lines.len()
        invariant
            i <= wrapped_lines@.len(),
            strings_view(r@) == strings_view(wrapped_lines@).take(i as int).map_values(
                |l: Seq<char>| indent() + l,
            ),
        decreases wrapped_lines@.len() - i,
    {
        proof {
            reveal_strlit("   ");
        }
        let mut line = String::from_str("   ");
        assert("   "@ =~= indent());
        line.append(wrapped_lines[i].as_str());
        let ghost ws = strings_view(wrapped_lines@);
        assert(line@ == indent() + ws[i as int]);
        let ghost before = strings_view(r@);
        r.push(line);
        assert(strings_view(r@) =~= before.push(indent() + ws[i as int]));
        assert(ws.take(i + 1) =~= ws.take(i as int).push(ws[i as int]));
        assert(ws.take(i + 1).map_values(|l: Seq<char>| indent() + l) =~= ws.take(
            i as int,
        ).map_values(|l: Seq<char>| indent() + l).push(indent() + ws[i as int]));
        i = i + 1;
    }
    assert(strings_view(wrapped_lines@).take(i as int) =~= strings_view(wrapped_lines@));
    r.push(String::new());
    assert(strings_view(r@) =~= paragraph_lines(strings_view(wrapped_lines@)));
    r
}

/// Builds a list entry's line.
pub fn entry_line(text: &String) -> (r: String)
    ensures
        r@ == entry_text_line(text@),
{
    proof {
        reveal_strlit("   - ");
    }
    let mut line = String::from_str("   - ");
    line.append(text.as_str());
    assert(line@ =~= entry_text_line(text@));
    line
}

/// Lays out elements as display lines, in order.
pub fn render(elements: &Vec<TextElement>) -> (r: Vec<String>)
    ensures
        strings_view(r@) == rendered(elements_view(elements@)),
{
    let mut r: Vec<String> = Vec::new();
    let mut i: usize = 0;
    while i < elements.len()
        invariant
            i <= elements@.len(),
            strings_view(r@) == rendered(elements_view(elements@).take(i as int)),
        decreases elements@.len() - i,
    {
        let ghost es = elements_view(elements@);
        let ghost before = strings_view(r@);
        assert(es.take(i + 1).drop_last() =~= es.take(i as int));
        assert(es.take(i + 1).last() == elements@[i as int]@);
        match &elements[i] {
            TextElement::Paragraph(t) => {
                let mut block = paragraph_block(&wrap_text(t, WRAP_WIDTH));
                let ghost added = strings_view(block@);
                r.append(&mut block);
                assert(strings_view(r@) =~= before + added);
            },
            TextElement::ListEntry(t) => {
                r.push(entry_line(t));
                assert(strings_view(r@) =~= before + element_lines(es[i as int]));
            },
        }
        i = i + 1;
    }
    assert(elements_view(elements@).take(i as int) =~= elements_view(elements@));
    r
}

} // verus!
