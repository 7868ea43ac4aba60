//! Terminal styling layered on top of the segments: matched segments are
//! wrapped in a bold green escape sequence, unmatched segments pass through
//! unchanged. The styling never alters the text itself, only surrounds it.

use vstd::prelude::*;
use crate::highlight::{Segment, SegModel, render_model, render};
use crate::lines::lines_of;
use crate::matcher::{matching_lines, find_matching_lines};

verus! {

/// The escape sequence that turns bold green styling on.
pub open spec fn emphasis_prefix() -> Seq<char> {
    seq!['\u{1b}', '[', '1', ';', '3', '2', 'm']
}

/// The escape sequence that resets styling.
pub open spec fn emphasis_suffix() -> Seq<char> {
    seq!['\u{1b}', '[', '0', 'm']
}

/// One segment as it is printed: the text, wrapped in the emphasis escapes
/// when the segment is matched.
pub open spec fn styled_segment(s: SegModel) -> Seq<char> {
    if s.matched {
        emphasis_prefix() + s.text + emphasis_suffix()
    } else {
        s.text
    }
}

/// A whole sequence of segments as it is printed, in order.
pub open spec fn styled_text(segs: Seq<SegModel>) -> Seq<char>
    decreases segs.len(),
{
    if segs.len() == 0 {
        Seq::empty()
    } else {
        styled_segment(segs.first()) + styled_text(segs.drop_first())
    }
}

/// Styled text distributes over appending segment sequences.
pub proof fn lemma_styled_text_app(a: Seq<SegModel>, b: Seq<SegModel>)
    ensures
        styled_text(a + b) == styled_text(a) + styled_text(b),
    decreases a.len(),
{
    if a.len() == 0 {
        assert(a + b =~= b);
        assert(styled_text(a) + styled_text(b) =~= styled_text(b));
    } else {
        assert((a + b).drop_first() =~= a.drop_first() + b);
        assert((a + b).first() == a.first());
        lemma_styled_text_app(a.drop_first(), b);
        assert(styled_segment(a.first()) + (styled_text(a.drop_first()) + styled_text(b)) =~= (
        styled_segment(a.first()) + styled_text(a.drop_first())) + styled_text(b));
    }
}

/// The styled text of a single segment is that segment's styled form.
pub proof fn lemma_styled_text_singleton(s: SegModel)
    ensures
        styled_text(seq![s]) == styled_segment(s),
{
    assert(seq![s].drop_first() =~= Seq::<SegModel>::empty());
    assert(styled_text(Seq::<SegModel>::empty()) == Seq::<char>::empty());
    assert(seq![s].first() == s);
    assert(styled_segment(s) + Seq::<char>::empty() =~= styled_segment(s));
}

/// Relies on ansi_term: painting a string with the bold green style yields
/// the bold green escape prefix, then the text, then the reset suffix.
#[verifier::external_body]
fn paint_emphasis(s: &str) -> (r: String)
    ensures
        r@ == emphasis_prefix() + s@ + emphasis_suffix(),
{
    ansi_term::Colour::Green.bold().paint(s).to_string()
}

/// Renders one segment for printing: matched text wrapped in the emphasis
/// escapes, unmatched text unchanged.
pub fn styled_segment_string(seg: &Segment) -> (r: String)
    ensures
        r@ == styled_segment(seg@),
{
    if seg.matched {
        paint_emphasis(seg.text.as_str())
    } else {
        seg.text.clone()
    }
}

/// Renders a line for printing: its segments in order, matched ones
/// emphasized. The unstyled characters of the result are exactly the line.
pub fn render_styled(line: &str, query: &str, case_sensitive: bool) -> (r: String)
    ensures
        r@ == styled_text(render_model(line@, query@, case_sensitive)),
{
    let segs = render(line, query, case_sensitive);
    let ghost model = segs@.map_values(|s: Segment| s@);
    let mut out = String::new();
    let mut k: usize = 0;
    proof {
        assert(model.subrange(0, 0) =~= Seq::<SegModel>::empty());
        assert(out@ =~= styled_text(model.subrange(0, 0)));
    }
    while k < segs.len()
        invariant
            model == segs@.map_values(|s: Segment| s@),
            model == render_model(line@, query@, case_sensitive),
            0 <= k <= segs@.len(),
            model.len() == segs@.len(),
            out@ == styled_text(model.subrange(0, k as int)),
        decreases segs@.len() - k,
    {
        let piece = styled_segment_string(&segs[k]);
        out.append(piece.as_str());
        proof {
            let prefix = model.subrange(0, k as int);
            let next = model.subrange(0, k + 1);
            assert(next =~= prefix + seq![model[k as int]]);
            lemma_styled_text_app(prefix, seq![model[k as int]]);
            lemma_styled_text_singleton(model[k as int]);
            assert(model[k as int] == segs@[k as int]@);
        }
        k += 1;
    }
    proof {
        assert(model.subrange(0, model.len() as int) =~= model);
    }
    out
}

/// The styled form of one line of `lines` under `query`.
pub open spec fn styled_line(line: Seq<char>, query: Seq<char>, case_sensitive: bool) -> Seq<
    char,
> {
    styled_text(render_model(line, query, case_sensitive))
}

/// The whole search, rendered: every line of `contents` that contains
/// `query`, in file order, with each occurrence of the query emphasized.
pub fn render_matches(query: &str, contents: &str, case_sensitive: bool) -> (r: Vec<String>)
    ensures
        r.deep_view() == matching_lines(lines_of(contents@), query@, case_sensitive).map_values(
            |l: Seq<char>| styled_line(l, query@, case_sensitive),
        ),
{
    let lines = find_matching_lines(query, contents, case_sensitive);
    let ghost target = matching_lines(lines_of(contents@), query@, case_sensitive).map_values(
        |l: Seq<char>| styled_line(l, query@, case_sensitive),
    );
    let mut r: Vec<String> = Vec::new();
    let mut k: usize = 0;
    proof {
        assert(r.deep_view() =~= target.subrange(0, 0));
    }
    while k < lines.len()
        invariant
            lines.deep_view() == matching_lines(lines_of(contents@), query@, case_sensitive),
            target == matching_lines(lines_of(contents@), query@, case_sensitive).map_values(
                |l: Seq<char>| styled_line(l, query@, case_sensitive),
            ),
            0 <= k <= lines@.len(),
            target.len() == lines@.len(),
            r.deep_view() == target.subrange(0, k as int),
        decreases lines@.len() - k,
    {
        let styled = render_styled(lines[k].as_str(), query, case_sensitive);
        let ghost old_r = r.deep_view();
        r.push(styled);
        proof {
            assert(lines.deep_view()[k as int] == lines@[k as int]@);
            assert(target[k as int] == styled_line(lines@[k as int]@, query@, case_sensitive));
            assert(r.deep_view() =~= old_r.push(styled@));
            assert(target.subrange(0, k + 1) =~= target.subrange(0, k as int).push(
                target[k as int],
            ));
        }
        k += 1;
    }
    proof {
        assert(target.subrange(0, target.len() as int) =~= target);
    }
    r
}

} // verus!
