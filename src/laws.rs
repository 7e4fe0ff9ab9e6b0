//! Properties of segmentation, proved over the model.
use crate::model::{
    emitted, flush, is_marker, is_white_space, scan_from, segments, step, Scan, Segment,
};
use vstd::prelude::*;

verus! {

/// A run of `n` line breaks.
pub open spec fn line_breaks(n: nat) -> Seq<char> {
    Seq::new(n, |i: int| '\n')
}

/// Running the machine over `a + b` is running it over `a`, then over `b`
/// from where `a` left it.
pub proof fn lemma_scan_concat(st: Scan, a: Seq<char>, b: Seq<char>)
    ensures
        scan_from(st, a + b) == ({
            let (s1, o1) = scan_from(st, a);
            let (s2, o2) = scan_from(s1, b);
            (s2, o1 + o2)
        }),
    decreases b.len(),
{
    let (s1, o1) = scan_from(st, a);
    if b.len() == 0 {
        assert(a + b =~= a);
        assert(o1 + seq![] =~= o1);
    } else {
        assert((a + b).drop_last() =~= a + b.drop_last());
        assert((a + b).last() == b.last());
        lemma_scan_concat(st, a, b.drop_last());
        let (s2, o2) = scan_from(s1, b.drop_last());
        assert(o1 + o2 + emitted(s2, b.last()) =~= o1 + (o2 + emitted(s2, b.last())));
    }
}

/// Running the machine over one character is one step.
proof fn lemma_scan_one(st: Scan, c: char)
    ensures
        scan_from(st, seq![c]) == (step(st, c), emitted(st, c)),
{
    assert(seq![c].drop_last() =~= Seq::<char>::empty());
    assert(scan_from(st, Seq::<char>::empty()) == (st, Seq::<Segment>::empty()));
    assert(Seq::<Segment>::empty() + emitted(st, c) =~= emitted(st, c));
}

/// Two or more line breaks close whatever is open and return to `Init`.
proof fn lemma_line_breaks_close(st: Scan, n: nat)
    requires
        n >= 2,
    ensures
        scan_from(st, line_breaks(n)) == (Scan::Init, flush(st)),
    decreases n,
{
    assert(line_breaks(n).drop_last() =~= line_breaks((n - 1) as nat));
    if n == 2 {
        assert(line_breaks(1).drop_last() =~= line_breaks(0));
        assert(scan_from(st, line_breaks(0)) == (st, Seq::<Segment>::empty()));
        let s1 = step(st, '\n');
        let o1 = emitted(st, '\n');
        assert(scan_from(st, line_breaks(1)) == (s1, Seq::<Segment>::empty() + o1));
        match st {
            Scan::Init => {
                assert(Seq::<Segment>::empty() + o1 + emitted(s1, '\n') =~= flush(st));
            },
            Scan::InParagraph { text, last } => {
                if last == '\n' {
                    assert(Seq::<Segment>::empty() + o1 + emitted(s1, '\n') =~= flush(st));
                } else {
                    assert(Seq::<Segment>::empty() + o1 + emitted(s1, '\n') =~= flush(st));
                }
            },
            Scan::InListEntry { .. } => {
                assert(Seq::<Segment>::empty() + o1 + emitted(s1, '\n') =~= flush(st));
            },
        }
    } else {
        lemma_line_breaks_close(st, (n - 1) as nat);
        assert(flush(st) + emitted(Scan::Init, '\n') =~= flush(st));
    }
}

/// Joining two texts with two or more line breaks joins their segmentations:
/// one blank line or many separate blocks alike.
pub proof fn lemma_blank_lines_separate(a: Seq<char>, b: Seq<char>, n: nat)
    requires
        n >= 2,
    ensures
        segments(a + line_breaks(n) + b) == segments(a) + segments(b),
{
    let (sa, oa) = scan_from(Scan::Init, a);
    let (sb, ob) = scan_from(Scan::Init, b);
    lemma_scan_concat(Scan::Init, a + line_breaks(n), b);
    lemma_scan_concat(Scan::Init, a, line_breaks(n));
    lemma_line_breaks_close(sa, n);
    assert(oa + flush(sa) + ob + flush(sb) =~= (oa + flush(sa)) + (ob + flush(sb)));
}

/// Re-segmenting two texts joined by a blank line gives the two
/// segmentations one after the other.
pub proof fn lemma_join_by_blank_line(a: Seq<char>, b: Seq<char>)
    ensures
        segments(a + seq!['\n', '\n'] + b) == segments(a) + segments(b),
{
    assert(line_breaks(2) =~= seq!['\n', '\n']);
    lemma_blank_lines_separate(a, b, 2);
}

/// One or more line breaks and then a marker close whatever is open and
/// start a list entry.
proof fn lemma_line_breaks_then_marker(st: Scan, n: nat, m: char)
    requires
        n >= 1,
        is_marker(m),
    ensures
        scan_from(st, line_breaks(n).push(m)) == (
            Scan::InListEntry { text: seq![], started: false },
            flush(st),
        ),
{
    let fresh = Scan::InListEntry { text: seq![], started: false };
    assert(line_breaks(n).push(m).drop_last() =~= line_breaks(n));
    if n == 1 {
        let s1 = step(st, '\n');
        let o1 = emitted(st, '\n');
        assert(line_breaks(1) =~= seq!['\n']);
        lemma_scan_one(st, '\n');
        assert(step(s1, m) == fresh);
        assert(o1 + emitted(s1, m) =~= flush(st));
    } else {
        lemma_line_breaks_close(st, n);
        assert(flush(st) + emitted(Scan::Init, m) =~= flush(st));
    }
}

/// A list entry that follows one or more line breaks starts a new block,
/// whatever came before it: the segmentations of both sides are joined.
pub proof fn lemma_marker_line_separates(a: Seq<char>, b: Seq<char>, n: nat)
    requires
        n >= 1,
        b.len() > 0,
        is_marker(b[0]),
    ensures
        segments(a + line_breaks(n) + b) == segments(a) + segments(b),
{
    let m = b[0];
    let rest = b.drop_first();
    let fresh = Scan::InListEntry { text: seq![], started: false };
    let (sa, oa) = scan_from(Scan::Init, a);
    let (sr, or) = scan_from(fresh, rest);
    assert(a + line_breaks(n) + b =~= (a + line_breaks(n).push(m)) + rest);
    assert(b =~= seq![m] + rest);
    lemma_scan_concat(Scan::Init, a + line_breaks(n).push(m), rest);
    lemma_scan_concat(Scan::Init, a, line_breaks(n).push(m));
    lemma_line_breaks_then_marker(sa, n, m);
    lemma_scan_concat(Scan::Init, seq![m], rest);
    lemma_scan_one(Scan::Init, m);
    assert(Seq::<Segment>::empty() + or =~= or);
    assert(oa + flush(sa) + or + flush(sr) =~= (oa + flush(sa)) + (or + flush(sr)));
}

/// A non-empty prefix of a line that opens a paragraph stays in that
/// paragraph, verbatim, and emits nothing.
proof fn lemma_line_prefix(s: Seq<char>, k: int)
    requires
        1 <= k <= s.len(),
        forall|i: int| 0 <= i < s.len() ==> s[i] != '\n',
        s[0] != ' ',
        !is_marker(s[0]),
    ensures
        scan_from(Scan::Init, s.take(k)) == (
            Scan::InParagraph { text: s.take(k), last: s[k - 1] },
            Seq::<Segment>::empty(),
        ),
    decreases k,
{
    assert(s.take(k).drop_last() =~= s.take(k - 1));
    if k == 1 {
        assert(s.take(1) =~= seq![s[0]]);
        lemma_scan_one(Scan::Init, s[0]);
    } else {
        lemma_line_prefix(s, k - 1);
        assert(s[k - 2] != '\n');
        assert(s.take(k - 1).push(s[k - 1]) =~= s.take(k));
        assert(Seq::<Segment>::empty() + Seq::<Segment>::empty() =~= Seq::<Segment>::empty());
    }
}

/// Lines joined with `sep` between each two.
pub open spec fn joined(ls: Seq<Seq<char>>, sep: char) -> Seq<char>
    decreases ls.len(),
{
    if ls.len() <= 1 {
        if ls.len() == 0 {
            seq![]
        } else {
            ls[0]
        }
    } else {
        joined(ls.drop_last(), sep).push(sep) + ls.last()
    }
}

/// A line that begins with text: non-empty, without line break, and starting
/// with neither a blank nor a marker.
pub open spec fn is_text_line(l: Seq<char>) -> bool {
    &&& l.len() > 0
    &&& forall|i: int| 0 <= i < l.len() ==> l[i] != '\n'
    &&& !is_white_space(l[0])
    &&& !is_marker(l[0])
}

/// After a pending line break, a text line is appended to the paragraph
/// behind one space.
proof fn lemma_fold_prefix(text: Seq<char>, l: Seq<char>, k: int)
    requires
        is_text_line(l),
        1 <= k <= l.len(),
    ensures
        scan_from(Scan::InParagraph { text, last: '\n' }, l.take(k)) == (
            Scan::InParagraph { text: text.push(' ') + l.take(k), last: l[k - 1] },
            Seq::<Segment>::empty(),
        ),
    decreases k,
{
    let st = Scan::InParagraph { text, last: '\n' };
    assert(l.take(k).drop_last() =~= l.take(k - 1));
    assert(is_white_space(' '));
    if k == 1 {
        assert(l.take(1) =~= seq![l[0]]);
        lemma_scan_one(st, l[0]);
        assert(text.push(' ').push(l[0]) =~= text.push(' ') + l.take(1));
    } else {
        lemma_fold_prefix(text, l, k - 1);
        assert(l[k - 2] != '\n');
        assert((text.push(' ') + l.take(k - 1)).push(l[k - 1]) =~= text.push(' ') + l.take(k));
        assert(Seq::<Segment>::empty() + Seq::<Segment>::empty() =~= Seq::<Segment>::empty());
    }
}

proof fn lemma_fold_lines(ls: Seq<Seq<char>>)
    requires
        ls.len() > 0,
        forall|j: int| 0 <= j < ls.len() ==> is_text_line(#[trigger] ls[j]),
    ensures
        scan_from(Scan::Init, joined(ls, '\n')) == (
            Scan::InParagraph { text: joined(ls, ' '), last: ls.last().last() },
            Seq::<Segment>::empty(),
        ),
    decreases ls.len(),
{
    let l = ls.last();
    assert(is_text_line(l));
    assert(is_white_space(' ') && is_white_space('\n'));
    if ls.len() == 1 {
        lemma_line_prefix(l, l.len() as int);
        assert(l.take(l.len() as int) =~= l);
    } else {
        let front = ls.drop_last();
        assert forall|j: int| 0 <= j < front.len() implies is_text_line(#[trigger] front[j]) by {
            assert(front[j] == ls[j]);
        }
        lemma_fold_lines(front);
        let head = joined(front, '\n');
        let text = joined(front, ' ');
        assert(is_text_line(front.last()));
        lemma_scan_concat(Scan::Init, head, seq!['\n']);
        lemma_scan_one(Scan::InParagraph { text, last: front.last().last() }, '\n');
        assert(Seq::<Segment>::empty() + Seq::<Segment>::empty() =~= Seq::<Segment>::empty());
        lemma_scan_concat(Scan::Init, head.push('\n'), l);
        assert(head + seq!['\n'] =~= head.push('\n'));
        lemma_fold_prefix(text, l, l.len() as int);
        assert(l.take(l.len() as int) =~= l);
    }
}

/// Text lines separated by single line breaks fold into one paragraph, each
/// line break becoming one space; a final line break changes nothing.
pub proof fn lemma_line_breaks_fold(ls: Seq<Seq<char>>)
    requires
        ls.len() > 0,
        forall|j: int| 0 <= j < ls.len() ==> is_text_line(#[trigger] ls[j]),
    ensures
        segments(joined(ls, '\n')) == seq![Segment::Paragraph(joined(ls, ' '))],
        segments(joined(ls, '\n').push('\n')) == seq![Segment::Paragraph(joined(ls, ' '))],
{
    let e = Seq::<Segment>::empty();
    let p = seq![Segment::Paragraph(joined(ls, ' '))];
    assert(is_text_line(ls.last()));
    lemma_fold_lines(ls);
    assert(e + p =~= p);
    lemma_scan_concat(Scan::Init, joined(ls, '\n'), seq!['\n']);
    assert(joined(ls, '\n') + seq!['\n'] =~= joined(ls, '\n').push('\n'));
    lemma_scan_one(Scan::InParagraph { text: joined(ls, ' '), last: ls.last().last() }, '\n');
    assert(e + e =~= e);
}

/// Text with no line break, which starts with neither blank nor marker and
/// ends with no blank, is one paragraph holding exactly that text.
pub proof fn lemma_single_line(s: Seq<char>)
    requires
        s.len() > 0,
        forall|i: int| 0 <= i < s.len() ==> s[i] != '\n',
        !is_white_space(s[0]),
        !is_white_space(s.last()),
        !is_marker(s[0]),
    ensures
        segments(s) == seq![Segment::Paragraph(s)],
{
    lemma_line_prefix(s, s.len() as int);
    assert(s.take(s.len() as int) =~= s);
    assert(Seq::<Segment>::empty() + seq![Segment::Paragraph(s)] =~= seq![Segment::Paragraph(s)]);
}

/// The state of a list entry whose marker was just read.
pub open spec fn fresh_entry() -> Scan {
    Scan::InListEntry { text: seq![], started: false }
}

/// Plain spaces are skipped between elements.
proof fn lemma_skip_spaces(lead: Seq<char>)
    requires
        forall|i: int| 0 <= i < lead.len() ==> lead[i] == ' ',
    ensures
        scan_from(Scan::Init, lead) == (Scan::Init, Seq::<Segment>::empty()),
    decreases lead.len(),
{
    if lead.len() > 0 {
        lemma_skip_spaces(lead.drop_last());
        assert(Seq::<Segment>::empty() + Seq::<Segment>::empty() =~= Seq::<Segment>::empty());
    }
}

/// Blanks other than line breaks are skipped after a marker.
proof fn lemma_skip_gap(gap: Seq<char>)
    requires
        forall|i: int| 0 <= i < gap.len() ==> is_white_space(gap[i]) && gap[i] != '\n',
    ensures
        scan_from(fresh_entry(), gap) == (fresh_entry(), Seq::<Segment>::empty()),
    decreases gap.len(),
{
    if gap.len() > 0 {
        lemma_skip_gap(gap.drop_last());
        assert(Seq::<Segment>::empty() + Seq::<Segment>::empty() =~= Seq::<Segment>::empty());
    }
}

/// Once an entry's first non-blank character came, the rest of the line is
/// taken verbatim.
proof fn lemma_entry_prefix(t: Seq<char>, k: int)
    requires
        1 <= k <= t.len(),
        forall|i: int| 0 <= i < t.len() ==> t[i] != '\n',
        !is_white_space(t[0]),
    ensures
        scan_from(fresh_entry(), t.take(k)) == (
            Scan::InListEntry { text: t.take(k), started: true },
            Seq::<Segment>::empty(),
        ),
    decreases k,
{
    assert(t.take(k).drop_last() =~= t.take(k - 1));
    if k == 1 {
        assert(t.take(1) =~= seq![t[0]]);
        lemma_scan_one(fresh_entry(), t[0]);
        assert(seq![].push(t[0]) =~= t.take(1));
    } else {
        lemma_entry_prefix(t, k - 1);
        assert(t.take(k - 1).push(t[k - 1]) =~= t.take(k));
        assert(Seq::<Segment>::empty() + Seq::<Segment>::empty() =~= Seq::<Segment>::empty());
    }
}

/// A line made of spaces, a marker, blanks and then text becomes one list
/// entry holding that text, with or without a line break after it.
pub proof fn lemma_list_line(lead: Seq<char>, m: char, gap: Seq<char>, t: Seq<char>)
    requires
        forall|i: int| 0 <= i < lead.len() ==> lead[i] == ' ',
        is_marker(m),
        forall|i: int| 0 <= i < gap.len() ==> is_white_space(gap[i]) && gap[i] != '\n',
        forall|i: int| 0 <= i < t.len() ==> t[i] != '\n',
        t.len() > 0 ==> !is_white_space(t[0]),
    ensures
        segments(lead + seq![m] + gap + t) == seq![Segment::ListEntry(t)],
        segments(lead + seq![m] + gap + t + seq!['\n']) == seq![Segment::ListEntry(t)],
{
    let e = Seq::<Segment>::empty();
    let line = lead + seq![m] + gap + t;
    lemma_skip_spaces(lead);
    lemma_scan_one(Scan::Init, m);
    lemma_scan_concat(Scan::Init, lead, seq![m]);
    assert(e + e =~= e);
    lemma_skip_gap(gap);
    lemma_scan_concat(Scan::Init, lead + seq![m], gap);
    lemma_scan_concat(Scan::Init, lead + seq![m] + gap, t);
    let end = Scan::InListEntry { text: t, started: t.len() > 0 };
    if t.len() > 0 {
        lemma_entry_prefix(t, t.len() as int);
        assert(t.take(t.len() as int) =~= t);
    } else {
        assert(scan_from(fresh_entry(), t) == (fresh_entry(), e));
        assert(t =~= Seq::<char>::empty());
    }
    assert(scan_from(Scan::Init, line) == (end, e));
    assert(e + flush(end) =~= seq![Segment::ListEntry(t)]);
    lemma_scan_concat(Scan::Init, line, seq!['\n']);
    lemma_scan_one(end, '\n');
    assert(e + seq![Segment::ListEntry(t)] + flush(Scan::Init) =~= seq![Segment::ListEntry(t)]);
}

/// Exchanges the two markers; every other character stays.
pub open spec fn swap_marker(c: char) -> char {
    if c == '-' {
        '*'
    } else if c == '*' {
        '-'
    } else {
        c
    }
}

/// Exchanges the two markers throughout a text.
pub open spec fn swap_markers(s: Seq<char>) -> Seq<char> {
    s.map_values(|c: char| swap_marker(c))
}

/// Exchanges the two markers throughout a segment's text.
pub open spec fn swap_segment(g: Segment) -> Segment {
    match g {
        Segment::Paragraph(t) => Segment::Paragraph(swap_markers(t)),
        Segment::ListEntry(t) => Segment::ListEntry(swap_markers(t)),
    }
}

/// Exchanges the two markers throughout a sequence of segments.
pub open spec fn swap_segments(gs: Seq<Segment>) -> Seq<Segment> {
    gs.map_values(|g: Segment| swap_segment(g))
}

spec fn swap_scan(st: Scan) -> Scan {
    match st {
        Scan::Init => Scan::Init,
        Scan::InParagraph { text, last } => Scan::InParagraph {
            text: swap_markers(text),
            last: swap_marker(last),
        },
        Scan::InListEntry { text, started } => Scan::InListEntry {
            text: swap_markers(text),
            started,
        },
    }
}

proof fn lemma_swap_push(s: Seq<char>, c: char)
    ensures
        swap_markers(s.push(c)) == swap_markers(s).push(swap_marker(c)),
{
    assert(swap_markers(s.push(c)) =~= swap_markers(s).push(swap_marker(c)));
}

proof fn lemma_swap_step(st: Scan, c: char)
    ensures
        step(swap_scan(st), swap_marker(c)) == swap_scan(step(st, c)),
        emitted(swap_scan(st), swap_marker(c)) == swap_segments(emitted(st, c)),
{
    assert(!is_white_space('-') && !is_white_space('*'));
    assert(swap_markers(seq![]) =~= seq![]);
    assert(swap_segments(seq![]) =~= seq![]);
    match st {
        Scan::Init => {
            lemma_swap_push(seq![], c);
            assert(seq![c] =~= Seq::<char>::empty().push(c));
            assert(seq![swap_marker(c)] =~= Seq::<char>::empty().push(swap_marker(c)));
        },
        Scan::InParagraph { text, last } => {
            lemma_swap_push(text, ' ');
            lemma_swap_push(text.push(' '), c);
            lemma_swap_push(text, c);
            assert(swap_segments(seq![Segment::Paragraph(text)]) =~= seq![
                Segment::Paragraph(swap_markers(text)),
            ]);
        },
        Scan::InListEntry { text, started } => {
            lemma_swap_push(text, c);
            assert(swap_segments(seq![Segment::ListEntry(text)]) =~= seq![
                Segment::ListEntry(swap_markers(text)),
            ]);
        },
    }
}

proof fn lemma_swap_scan(s: Seq<char>)
    ensures
        scan_from(Scan::Init, swap_markers(s)) == ({
            let (st, out) = scan_from(Scan::Init, s);
            (swap_scan(st), swap_segments(out))
        }),
    decreases s.len(),
{
    if s.len() == 0 {
        assert(swap_markers(s) =~= Seq::<char>::empty());
        assert(swap_segments(Seq::<Segment>::empty()) =~= Seq::<Segment>::empty());
    } else {
        let (st, out) = scan_from(Scan::Init, s.drop_last());
        assert(swap_markers(s).drop_last() =~= swap_markers(s.drop_last()));
        lemma_swap_scan(s.drop_last());
        lemma_swap_step(st, s.last());
        assert(swap_segments(out + emitted(st, s.last())) =~= swap_segments(out) + swap_segments(
            emitted(st, s.last()),
        ));
    }
}

/// The two markers are interchangeable: exchanging them throughout the input
/// exchanges them throughout the segments, and changes nothing else.
pub proof fn lemma_markers_interchangeable(s: Seq<char>)
    ensures
        segments(swap_markers(s)) == swap_segments(segments(s)),
{
    let (st, out) = scan_from(Scan::Init, s);
    lemma_swap_scan(s);
    assert(swap_segments(flush(st)) =~= flush(swap_scan(st)));
    assert(swap_segments(out + flush(st)) =~= swap_segments(out) + swap_segments(flush(st)));
}

} // verus!
