//! The listing of open pull requests: a header line for each, then its
//! description laid out as paragraphs and list entries.
use crate::model::{is_white_space, segments};
use crate::render::{render, rendered, strings_view};
use crate::text::parse;
use vstd::prelude::*;
use vstd::string::StringExecFns;

verus! {

/// What the listing reads of one pull request.
pub struct PullRequest {
    pub title: String,
    pub description: Option<String>,
    pub is_draft: bool,
    pub pull_request_id: u32,
    /// The display name of its author.
    pub author: String,
}

/// `s` without its trailing `White_Space` characters.
pub open spec fn trimmed_end(s: Seq<char>) -> Seq<char>
    decreases s.len(),
{
    if s.len() > 0 && is_white_space(s.last()) {
        trimmed_end(s.drop_last())
    } else {
        s
    }
}

/// The decimal digits of `n`, without leading zeros.
pub open spec fn decimal(n: nat) -> Seq<char>
    decreases n,
{
    let digit = seq!['0', '1', '2', '3', '4', '5', '6', '7', '8', '9'][(n % 10) as int];
    if n < 10 {
        seq![digit]
    } else {
        decimal(n / 10).push(digit)
    }
}

/// Relies on `str::trim_end`: removes the trailing characters with the
/// Unicode `White_Space` property.
#[verifier::external_body]
fn trim_end_of(s: &String) -> (r: String)
    ensures
        r@ == trimmed_end(s@),
{
    s.trim_end().to_string()
}

/// Relies on `u32::to_string`: the number in decimal.
#[verifier::external_body]
fn decimal_text(n: u32) -> (r: String)
    ensures
        r@ == decimal(n as nat),
{
    n.to_string()
}

/// `author: title (id)`, with the title's trailing blanks removed.
pub open spec fn header(pr: PullRequest) -> Seq<char> {
    pr.author@ + seq![':', ' '] + trimmed_end(pr.title@) + seq![' ', '('] + decimal(
        pr.pull_request_id as nat,
    ) + seq![')']
}

/// Whether the description is listed: it exists and differs from the title.
pub open spec fn shows_description(pr: PullRequest) -> bool {
    pr.description is Some && pr.description->Some_0@ != pr.title@
}

/// The lines of one pull request: its header; then, where the description is
/// shown, a blank line and the description's layout; then a blank line.
pub open spec fn pull_request_lines(pr: PullRequest) -> Seq<Seq<char>> {
    let body = if shows_description(pr) {
        seq![seq![]] + rendered(segments(pr.description->Some_0@))
    } else {
        seq![]
    };
    seq![header(pr)] + body + seq![seq![]]
}

/// The lines of the listing: the pull requests that are not drafts, in order.
pub open spec fn report_lines(prs: Seq<PullRequest>) -> Seq<Seq<char>>
    decreases prs.len(),
{
    if prs.len() == 0 {
        seq![]
    } else if prs.last().is_draft {
        report_lines(prs.drop_last())
    } else {
        report_lines(prs.drop_last()) + pull_request_lines(prs.last())
    }
}

/// Builds the header line of a pull request.
pub fn header_line(pr: &PullRequest) -> (r: String)
    ensures
        r@ == header(*pr),
{
    proof {
        reveal_strlit(": ");
        reveal_strlit(" (");
        reveal_strlit(")");
    }
    let mut line = pr.author.clone();
    line.append(": ");
    line.append(trim_end_of(&pr.title).as_str());
    line.append(" (");
    line.append(decimal_text(pr.pull_request_id).as_str());
    line.append(")");
    assert(line@ =~= header(*pr));
    line
}

/// Builds the lines of one pull request.
pub fn describe(pr: &PullRequest) -> (r: Vec<String>)
    ensures
        strings_view(r@) == pull_request_lines(*pr),
{
    let mut r: Vec<String> = Vec::new();
    r.push(header_line(pr));
    let ghost head = strings_view(r@);
    assert(head =~= seq![header(*pr)]);
    match &pr.description {
        Some(d) => {
            if !d.eq(&pr.title) {
                r.push(String::new());
                let mut body = render(&parse(d.as_str()));
                let ghost b = strings_view(body@);
                let ghost mid = strings_view(r@);
                r.append(&mut body);
                assert(strings_view(r@) =~= mid + b);
                assert(mid =~= head + seq![seq![]]);
            }
        },
        None => {},
    }
    let ghost before = strings_view(r@);
    r.push(String::new());
    assert(strings_view(r@) =~= before.push(seq![]));
    assert(strings_view(r@) =~= pull_request_lines(*pr));
    r
}

/// Builds the listing of the pull requests that are not drafts.
pub fn report(prs: &Vec<PullRequest>) -> (r: Vec<String>)
    ensures
        strings_view(r@) == report_lines(prs@),
{
    let mut r: Vec<String> = Vec::new();
    let mut i: usize = 0;
    while i < prs.len()
        invariant
            i <= prs@.len(),
            strings_view(r@) == report_lines(prs@.take(i as int)),
        decreases prs@.len() - i,
    {
        assert(prs@.take(i + 1).drop_last() =~= prs@.take(i as int));
        assert(prs@.take(i + 1).last() == prs@[i as int]);
        if !prs[i].is_draft {
            let ghost before = strings_view(r@);
            let mut lines = describe(&prs[i]);
            let ghost added = strings_view(lines@);
            r.append(&mut lines);
            assert(strings_view(r@) =~= before + added);
        }
        i = i + 1;
    }
    assert(prs@.take(i as int) =~= prs@);
    r
}

} // verus!
