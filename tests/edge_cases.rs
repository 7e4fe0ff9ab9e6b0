use pr_text::{parse, TextElement};

fn para(s: &str) -> TextElement {
    TextElement::Paragraph(s.to_string())
}

fn entry(s: &str) -> TextElement {
    TextElement::ListEntry(s.to_string())
}

#[test]
fn empty_input_gives_nothing() {
    assert_eq!(parse(""), vec![]);
}

#[test]
fn blank_input_gives_nothing() {
    assert_eq!(parse("  \n \n\n   "), vec![]);
}

#[test]
fn single_line_breaks_fold_into_spaces() {
    assert_eq!(parse("a\nb\nc\n"), vec![para("a b c")]);
}

#[test]
fn indentation_after_a_fold_is_absorbed() {
    assert_eq!(parse("a\n    b"), vec![para("a b")]);
}

#[test]
fn blank_line_splits_paragraphs() {
    assert_eq!(parse("p1\n\np2\n\n"), vec![para("p1"), para("p2")]);
}

#[test]
fn many_blank_lines_split_like_one() {
    assert_eq!(parse("p1\n\n\n\n\np2"), parse("p1\n\np2"));
}

#[test]
fn marker_line_becomes_entry() {
    assert_eq!(parse(" -  item\n"), vec![entry("item")]);
}

#[test]
fn both_markers_strip_alike() {
    assert_eq!(parse(" *  item\n"), vec![entry("item")]);
    assert_eq!(parse("*x\n-x\n"), vec![entry("x"), entry("x")]);
}

#[test]
fn unicode_blanks_after_marker_are_stripped() {
    assert_eq!(parse("-\t\u{a0}\u{3000}x"), vec![entry("x")]);
}

#[test]
fn entry_keeps_inner_and_trailing_blanks() {
    assert_eq!(parse("- a  b\t \n"), vec![entry("a  b\t ")]);
}

#[test]
fn lone_marker_flushes_an_empty_entry() {
    assert_eq!(parse("-"), vec![entry("")]);
    assert_eq!(parse("*  \n"), vec![entry("")]);
}

#[test]
fn marker_inside_a_line_is_text() {
    assert_eq!(parse("a - b * c"), vec![para("a - b * c")]);
}

#[test]
fn tab_before_text_opens_a_paragraph() {
    assert_eq!(parse("\tx"), vec![para("\tx")]);
}

#[test]
fn marker_after_single_break_ends_paragraph() {
    assert_eq!(
        parse("intro\n- one\n* two\nafter"),
        vec![para("intro"), entry("one"), entry("two"), para("after")]
    );
}

#[test]
fn paragraph_ends_at_end_of_input() {
    assert_eq!(parse("last words  "), vec![para("last words  ")]);
}

#[test]
fn joining_by_blank_line_joins_results() {
    let a = "first\nline\n- x";
    let b = "* y\nsecond";
    let mut expected = parse(a);
    expected.extend(parse(b));
    assert_eq!(parse(&format!("{a}\n\n{b}")), expected);
}

#[test]
fn swapping_markers_swaps_only_markers() {
    let swapped: Vec<TextElement> = parse("- a-b\n* c")
        .into_iter()
        .map(|e| match e {
            TextElement::Paragraph(t) => para(&t.replace('-', "#").replace('*', "-").replace('#', "*")),
            TextElement::ListEntry(t) => entry(&t.replace('-', "#").replace('*', "-").replace('#', "*")),
        })
        .collect();
    assert_eq!(parse("* a*b\n- c"), swapped);
}
