//! The highlighter: splitting a matched line into matched and unmatched
//! segments, and rendering those segments with a terminal emphasis style.
//!
//! Occurrences of the query are found by a left-to-right scan that resumes
//! after each match, so the matched spans never overlap and appear in
//! increasing order. The segments cover the line with no gap and no overlap:
//! their concatenation is exactly the original line, whatever the case mode.
//! An empty query is treated as having no occurrences: the whole line comes
//! back as one unmatched segment.

use vstd::prelude::*;
use crate::fold::{fold_if, lemma_fold_if_subrange};
use crate::matcher::occurs_at;

verus! {

/// One rendered piece of a line: a slice of the original text, tagged as
/// part of a match or not.
pub struct Segment {
    pub text: String,
    pub matched: bool,
}

/// The mathematical model of a segment.
pub ghost struct SegModel {
    pub text: Seq<char>,
    pub matched: bool,
}

impl View for Segment {
    type V = SegModel;

    open spec fn view(&self) -> SegModel {
        SegModel { text: self.text@, matched: self.matched }
    }
}

/// The segments that the scan produces from position `i` on, with `start`
/// marking where the pending unmatched text began. Meaningful when
/// `query` is non-empty and `0 <= start <= i <= line.len()`.
pub open spec fn render_from(
    line: Seq<char>,
    query: Seq<char>,
    case_sensitive: bool,
    i: int,
    start: int,
) -> Seq<SegModel>
    decreases line.len() - i when query.len() >= 1 && 0 <= i <= line.len()
{
    if query.len() < 1 || i < 0 || i > line.len() {
        Seq::empty()
    } else if i + query.len() > line.len() {
        if start < line.len() {
            seq![SegModel { text: line.subrange(start, line.len() as int), matched: false }]
        } else {
            Seq::empty()
        }
    } else if occurs_at(fold_if(line, case_sensitive), fold_if(query, case_sensitive), i) {
        let pre = if start < i {
            seq![SegModel { text: line.subrange(start, i), matched: false }]
        } else {
            Seq::empty()
        };
        pre + seq![SegModel { text: line.subrange(i, i + query.len() as int), matched: true }]
            + render_from(line, query, case_sensitive, i + query.len() as int, i + query.len() as int)
    } else {
        render_from(line, query, case_sensitive, i + 1, start)
    }
}

/// The segments of a whole line: the scan from the beginning for a
/// non-empty query, and a single unmatched segment holding the whole line
/// for an empty one.
pub open spec fn render_model(line: Seq<char>, query: Seq<char>, case_sensitive: bool) -> Seq<
    SegModel,
> {
    if query.len() == 0 {
        seq![SegModel { text: line, matched: false }]
    } else {
        render_from(line, query, case_sensitive, 0, 0)
    }
}

/// The text of a sequence of segments, concatenated in order.
pub open spec fn concat_segments(segs: Seq<SegModel>) -> Seq<char>
    decreases segs.len(),
{
    if segs.len() == 0 {
        Seq::empty()
    } else {
        segs.first().text + concat_segments(segs.drop_first())
    }
}

/// Concatenation of segments distributes over appending.
pub proof fn lemma_concat_segments_app(a: Seq<SegModel>, b: Seq<SegModel>)
    ensures
        concat_segments(a + b) == concat_segments(a) + concat_segments(b),
    decreases a.len(),
{
    if a.len() == 0 {
        assert(a + b =~= b);
        assert(concat_segments(a) + concat_segments(b) =~= concat_segments(b));
    } else {
        assert((a + b).drop_first() =~= a.drop_first() + b);
        assert((a + b).first() == a.first());
        lemma_concat_segments_app(a.drop_first(), b);
        assert(a.first().text + (concat_segments(a.drop_first()) + concat_segments(b)) =~= (
        a.first().text + concat_segments(a.drop_first())) + concat_segments(b));
    }
}

/// The text of a single segment is the segment's text.
pub proof fn lemma_concat_segments_singleton(s: SegModel)
    ensures
        concat_segments(seq![s]) == s.text,
{
    assert(seq![s].drop_first() =~= Seq::<SegModel>::empty());
    assert(concat_segments(Seq::<SegModel>::empty()) == Seq::<char>::empty());
    assert(seq![s].first() == s);
    assert(s.text + Seq::<char>::empty() =~= s.text);
}

proof fn lemma_render_from_concat(
    line: Seq<char>,
    query: Seq<char>,
    case_sensitive: bool,
    i: int,
    start: int,
)
    requires
        query.len() >= 1,
        0 <= start <= i <= line.len(),
    ensures
        concat_segments(render_from(line, query, case_sensitive, i, start)) == line.subrange(
            start,
            line.len() as int,
        ),
    decreases line.len() - i,
{
    let n = line.len() as int;
    let m = query.len() as int;
    if i + m > n {
        if start < n {
            lemma_concat_segments_singleton(
                SegModel { text: line.subrange(start, n), matched: false },
            );
        } else {
            assert(line.subrange(start, n) =~= Seq::<char>::empty());
        }
    } else if occurs_at(fold_if(line, case_sensitive), fold_if(query, case_sensitive), i) {
        let pre = if start < i {
            seq![SegModel { text: line.subrange(start, i), matched: false }]
        } else {
            Seq::<SegModel>::empty()
        };
        let mid = seq![SegModel { text: line.subrange(i, i + m), matched: true }];
        let rest = render_from(line, query, case_sensitive, i + m, i + m);
        lemma_render_from_concat(line, query, case_sensitive, i + m, i + m);
        lemma_concat_segments_app(pre + mid, rest);
        lemma_concat_segments_app(pre, mid);
        lemma_concat_segments_singleton(SegModel { text: line.subrange(i, i + m), matched: true });
        if start < i {
            lemma_concat_segments_singleton(
                SegModel { text: line.subrange(start, i), matched: false },
            );
        } else {
            assert(line.subrange(start, i) =~= Seq::<char>::empty());
        }
        assert(line.subrange(start, i) + line.subrange(i, i + m) + line.subrange(i + m, n)
            =~= line.subrange(start, n));
    } else {
        lemma_render_from_concat(line, query, case_sensitive, i + 1, start);
    }
}

/// Round trip: the segments of a line concatenate to exactly that line.
pub proof fn lemma_render_round_trip(line: Seq<char>, query: Seq<char>, case_sensitive: bool)
    ensures
        concat_segments(render_model(line, query, case_sensitive)) == line,
{
    if query.len() == 0 {
        lemma_concat_segments_singleton(SegModel { text: line, matched: false });
    } else {
        lemma_render_from_concat(line, query, case_sensitive, 0, 0);
        assert(line.subrange(0, line.len() as int) =~= line);
    }
}

proof fn lemma_render_from_matched(
    line: Seq<char>,
    query: Seq<char>,
    case_sensitive: bool,
    i: int,
    start: int,
)
    requires
        query.len() >= 1,
        0 <= start <= i <= line.len(),
    ensures
        forall|k: int|
            0 <= k < render_from(line, query, case_sensitive, i, start).len()
                && #[trigger] render_from(line, query, case_sensitive, i, start)[k].matched
                ==> fold_if(render_from(line, query, case_sensitive, i, start)[k].text,
            case_sensitive) == fold_if(query, case_sensitive),
    decreases line.len() - i,
{
    let n = line.len() as int;
    let m = query.len() as int;
    let segs = render_from(line, query, case_sensitive, i, start);
    if i + m > n {
        assert forall|k: int|
            0 <= k < segs.len() && #[trigger] segs[k].matched implies fold_if(
            segs[k].text,
            case_sensitive,
        ) == fold_if(query, case_sensitive) by {
            assert(!segs[k].matched);
        }
    } else if occurs_at(fold_if(line, case_sensitive), fold_if(query, case_sensitive), i) {
        let pre = if start < i {
            seq![SegModel { text: line.subrange(start, i), matched: false }]
        } else {
            Seq::<SegModel>::empty()
        };
        let mid = seq![SegModel { text: line.subrange(i, i + m), matched: true }];
        let rest = render_from(line, query, case_sensitive, i + m, i + m);
        lemma_render_from_matched(line, query, case_sensitive, i + m, i + m);
        lemma_fold_if_subrange(line, i, i + m, case_sensitive);
        assert(fold_if(line, case_sensitive).len() == n);
        assert(fold_if(query, case_sensitive).len() == m);
        assert(fold_if(line.subrange(i, i + m), case_sensitive) =~= fold_if(
            query,
            case_sensitive,
        ));
        assert(segs =~= pre + mid + rest);
        assert forall|k: int|
            0 <= k < segs.len() && #[trigger] segs[k].matched implies fold_if(
            segs[k].text,
            case_sensitive,
        ) == fold_if(query, case_sensitive) by {
            if k < pre.len() {
                assert(segs[k] == pre[k]);
                assert(!segs[k].matched);
            } else if k == pre.len() {
                assert(segs[k] == mid[0]);
                assert(segs[k].text == line.subrange(i, i + m));
            } else {
                assert(segs[k] == rest[k - pre.len() - 1]);
                assert(rest[k - pre.len() - 1].matched);
            }
        }
    } else {
        lemma_render_from_matched(line, query, case_sensitive, i + 1, start);
        let next = render_from(line, query, case_sensitive, i + 1, start);
        assert(segs == next);
        assert forall|k: int|
            0 <= k < segs.len() && #[trigger] segs[k].matched implies fold_if(
            segs[k].text,
            case_sensitive,
        ) == fold_if(query, case_sensitive) by {
            assert(next[k].matched);
        }
    }
}

/// Every matched segment, compared case-appropriately, equals the query.
pub proof fn lemma_matched_segments_equal_query(
    line: Seq<char>,
    query: Seq<char>,
    case_sensitive: bool,
)
    ensures
        forall|k: int|
            0 <= k < render_model(line, query, case_sensitive).len()
                && #[trigger] render_model(line, query, case_sensitive)[k].matched
                ==> fold_if(render_model(line, query, case_sensitive)[k].text,
            case_sensitive) == fold_if(query, case_sensitive),
{
    if query.len() >= 1 {
        lemma_render_from_matched(line, query, case_sensitive, 0, 0);
    }
}

/// Splits `line` into matched and unmatched segments, exactly as
/// `render_model` describes.
pub fn render(line: &str, query: &str, case_sensitive: bool) -> (r: Vec<Segment>)
    ensures
        r@.map_values(|s: Segment| s@) == render_model(line@, query@, case_sensitive),
{
    let n = line.unicode_len();
    let m = query.unicode_len();
    let mut r: Vec<Segment> = Vec::new();
    if m == 0 {
        r.push(Segment { text: String::from_str(line), matched: false });
        proof {
            assert(r@.map_values(|s: Segment| s@) =~= render_model(line@, query@, case_sensitive));
        }
        return r;
    }
    let mut i: usize = 0;
    let mut start: usize = 0;
    proof {
        assert(r@.map_values(|s: Segment| s@) =~= Seq::<SegModel>::empty());
        assert(Seq::<SegModel>::empty() + render_from(line@, query@, case_sensitive, 0, 0)
            =~= render_from(line@, query@, case_sensitive, 0, 0));
    }
    while m <= n && i <= n - m
        invariant
            n == line@.len(),
            m == query@.len(),
            m >= 1,
            0 <= start <= i <= n,
            render_model(line@, query@, case_sensitive) == r@.map_values(|s: Segment| s@)
                + render_from(line@, query@, case_sensitive, i as int, start as int),
        decreases n - i,
    {
        let ghost before = r@.map_values(|s: Segment| s@);
        if crate::matcher::match_at(line, query, i, case_sensitive) {
            if start < i {
                let pre = line.substring_char(start, i);
                r.push(Segment { text: String::from_str(pre), matched: false });
            }
            let hit = line.substring_char(i, i + m);
            r.push(Segment { text: String::from_str(hit), matched: true });
            proof {
                let pre_model = if start < i {
                    seq![SegModel { text: line@.subrange(start as int, i as int), matched: false }]
                } else {
                    Seq::<SegModel>::empty()
                };
                let mid = seq![
                    SegModel { text: line@.subrange(i as int, i + m), matched: true },
                ];
                assert(r@.map_values(|s: Segment| s@) =~= before + pre_model + mid);
                assert(render_from(line@, query@, case_sensitive, i as int, start as int)
                    =~= pre_model + mid + render_from(
                    line@,
                    query@,
                    case_sensitive,
                    i + m,
                    i + m,
                ));
                assert((before + pre_model + mid) + render_from(
                    line@,
                    query@,
                    case_sensitive,
                    i + m,
                    i + m,
                ) =~= before + (pre_model + mid + render_from(
                    line@,
                    query@,
                    case_sensitive,
                    i + m,
                    i + m,
                )));
            }
            i = i + m;
            start = i;
        } else {
            i = i + 1;
        }
    }
    if start < n {
        let ghost before = r@.map_values(|s: Segment| s@);
        let tail = line.substring_char(start, n);
        r.push(Segment { text: String::from_str(tail), matched: false });
        proof {
            let tail_model = seq![
                SegModel { text: line@.subrange(start as int, n as int), matched: false },
            ];
            assert(r@.map_values(|s: Segment| s@) =~= before + tail_model);
            assert(render_from(line@, query@, case_sensitive, i as int, start as int)
                =~= tail_model);
        }
    } else {
        proof {
            assert(render_from(line@, query@, case_sensitive, i as int, start as int)
                =~= Seq::<SegModel>::empty());
            assert(r@.map_values(|s: Segment| s@) + Seq::<SegModel>::empty() =~= r@.map_values(
                |s: Segment| s@,
            ));
        }
    }
    r
}

} // verus!
