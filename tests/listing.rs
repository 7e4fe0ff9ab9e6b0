use pr_text::parse;
use pr_text::render::{entry_line, paragraph_block, render, WRAP_WIDTH};
use pr_text::report::{describe, header_line, report, PullRequest};

fn pr(title: &str, description: Option<&str>, is_draft: bool, id: u32) -> PullRequest {
    PullRequest {
        title: title.to_string(),
        description: description.map(|d| d.to_string()),
        is_draft,
        pull_request_id: id,
        author: "Ada".to_string(),
    }
}

#[test]
fn entry_line_has_dash_and_indent() {
    assert_eq!(entry_line(&"item".to_string()), "   - item");
}

#[test]
fn paragraph_block_indents_and_ends_blank() {
    let lines = vec!["one".to_string(), "two".to_string()];
    assert_eq!(paragraph_block(&lines), vec!["   one", "   two", ""]);
    assert_eq!(paragraph_block(&vec![]), vec![""]);
}

#[test]
fn long_paragraph_is_wrapped() {
    let word = "word ";
    let text = word.repeat(30);
    let lines = render(&parse(&text));
    assert!(lines.len() > 2);
    assert_eq!(lines.last().unwrap(), "");
    for line in &lines[..lines.len() - 1] {
        assert!(line.starts_with("   word"));
        assert!(line.len() <= 3 + WRAP_WIDTH);
    }
    let joined: Vec<&str> = lines.iter().map(|l| l.trim()).filter(|l| !l.is_empty()).collect();
    assert_eq!(joined.join(" "), text.trim_end());
}

#[test]
fn render_keeps_element_order() {
    let lines = render(&parse("Intro text.\n- a\n* b\n\nOutro."));
    assert_eq!(
        lines,
        vec!["   Intro text.", "", "   - a", "   - b", "   Outro.", ""]
    );
}

#[test]
fn header_trims_title_and_writes_id() {
    assert_eq!(header_line(&pr("Fix parser \t ", None, false, 4071)), "Ada: Fix parser (4071)");
    assert_eq!(header_line(&pr("Zero", None, false, 0)), "Ada: Zero (0)");
}

#[test]
fn description_equal_to_title_is_not_shown() {
    assert_eq!(describe(&pr("Same", Some("Same"), false, 7)), vec!["Ada: Same (7)", ""]);
    assert_eq!(describe(&pr("T", None, false, 8)), vec!["Ada: T (8)", ""]);
}

#[test]
fn description_is_laid_out_after_a_blank_line() {
    assert_eq!(
        describe(&pr("T", Some("Body\n* point"), false, 9)),
        vec!["Ada: T (9)", "", "   Body", "", "   - point", ""]
    );
}

#[test]
fn drafts_are_left_out() {
    let prs = vec![pr("A", None, false, 1), pr("B", None, true, 2), pr("C", None, false, 3)];
    assert_eq!(report(&prs), vec!["Ada: A (1)", "", "Ada: C (3)", ""]);
    assert!(report(&vec![]).is_empty());
}
