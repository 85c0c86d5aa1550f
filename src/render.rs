//! Rendering segments back into path text, and the round trip through parsing.
use vstd::prelude::*;
use crate::text::split;
use crate::template::{
    Segment, SegmentView, classify, nonempty_parts, path_segments, parse_path_spec,
};

verus! {

/// The text of one segment, without its leading `/`.
pub open spec fn seg_text(s: SegmentView) -> Seq<char> {
    match s {
        SegmentView::Literal(t) => t,
        SegmentView::PathParam(n) => seq![':'] + n,
        SegmentView::Wildcard => seq!['*'],
        SegmentView::NamedWildcard(n) => seq!['*'] + n,
    }
}

/// Each segment preceded by `/`.
pub open spec fn render_body(segs: Seq<SegmentView>) -> Seq<char>
    decreases segs.len(),
{
    if segs.len() == 0 {
        Seq::empty()
    } else {
        render_body(segs.drop_last()) + seq!['/'] + seg_text(segs.last())
    }
}

/// The path text of a segment sequence; the empty sequence is the root `/`.
pub open spec fn render_path_spec(segs: Seq<SegmentView>) -> Seq<char> {
    if segs.len() == 0 {
        seq!['/']
    } else {
        render_body(segs)
    }
}

fn segment_text(s: &Segment) -> (r: String)
    ensures
        r@ == seg_text(s@),
{
    proof {
        reveal_strlit(":");
        reveal_strlit("*");
    }
    match s {
        Segment::Literal(t) => t.clone(),
        Segment::PathParam(n) => {
            let mut out = String::from_str(":");
            out.append(n.as_str());
            out
        },
        Segment::Wildcard => String::from_str("*"),
        Segment::NamedWildcard(n) => {
            let mut out = String::from_str("*");
            out.append(n.as_str());
            out
        },
    }
}

/// Renders segments back into path text: `/` before each segment, or `/` alone
/// for no segments.
pub fn render_path(segs: &Vec<Segment>) -> (r: String)
    ensures
        r@ == render_path_spec(segs@.map_values(|s: Segment| s@)),
{
    let ghost sv = segs@.map_values(|s: Segment| s@);
    proof {
        reveal_strlit("/");
    }
    if segs.len() == 0 {
        return String::from_str("/");
    }
    let mut out = String::new();
    let mut i: usize = 0;
    proof {
        assert(sv.take(0) =~= Seq::<SegmentView>::empty());
    }
    while i < segs.len()
        invariant
            sv == segs@.map_values(|s: Segment| s@),
            "/"@ == seq!['/'],
            i <= segs.len(),
            out@ == render_body(sv.take(i as int)),
        decreases segs.len() - i,
    {
        proof {
            assert(sv.take(i + 1).drop_last() =~= sv.take(i as int));
            assert(sv.take(i + 1).last() == segs[i as int]@);
        }
        out.append("/");
        let t = segment_text(&segs[i]);
        out.append(t.as_str());
        i = i + 1;
    }
    proof {
        assert(sv.take(segs.len() as int) =~= sv);
    }
    out
}

/// A path component as parsing leaves it: not empty, and free of `/`.
pub open spec fn clean(c: Seq<char>) -> bool {
    c.len() > 0 && forall|i: int| 0 <= i < c.len() ==> c[i] != '/'
}

/// Components joined, each preceded by `/`.
pub open spec fn join(ps: Seq<Seq<char>>) -> Seq<char>
    decreases ps.len(),
{
    if ps.len() == 0 {
        Seq::empty()
    } else {
        join(ps.drop_last()) + seq!['/'] + ps.last()
    }
}

proof fn lemma_split_parts_free(s: Seq<char>, sep: char)
    ensures
        forall|k: int, i: int|
            0 <= k < split(s, sep).len() && 0 <= i < split(s, sep)[k].len() ==> #[trigger] split(s, sep)[k][i]
                != sep,
    decreases s.len(),
{
    if s.len() > 0 {
        lemma_split_parts_free(s.drop_last(), sep);
        crate::text::lemma_split_nonempty(s.drop_last(), sep);
    }
}

proof fn lemma_nonempty_clean(q: Seq<Seq<char>>)
    requires
        forall|k: int, i: int| 0 <= k < q.len() && 0 <= i < q[k].len() ==> #[trigger] q[k][i] != '/',
    ensures
        forall|k: int| 0 <= k < nonempty_parts(q).len() ==> clean(#[trigger] nonempty_parts(q)[k]),
    decreases q.len(),
{
    if q.len() > 0 {
        lemma_nonempty_clean(q.drop_last());
        assert(forall|i: int| 0 <= i < q.last().len() ==> #[trigger] q[q.len() - 1][i] != '/');
        if q.last().len() > 0 {
            let r = nonempty_parts(q);
            assert(clean(q.last()));
            assert(r == nonempty_parts(q.drop_last()).push(q.last()));
            assert forall|k: int| 0 <= k < r.len() implies clean(#[trigger] r[k]) by {
                if k < r.len() - 1 {
                    assert(r[k] == nonempty_parts(q.drop_last())[k]);
                }
            }
        }
    }
}

proof fn lemma_split_after_sep(x: Seq<char>, c: Seq<char>)
    requires
        forall|i: int| 0 <= i < c.len() ==> c[i] != '/',
    ensures
        split(x + seq!['/'] + c, '/') == split(x, '/').push(c),
    decreases c.len(),
{
    let s = x + seq!['/'] + c;
    if c.len() == 0 {
        assert(s.drop_last() =~= x);
        assert(c =~= Seq::<char>::empty());
    } else {
        assert(s.drop_last() =~= x + seq!['/'] + c.drop_last());
        lemma_split_after_sep(x, c.drop_last());
        assert(c.drop_last().push(c.last()) =~= c);
        assert(split(x, '/').push(c.drop_last()).update(split(x, '/').len() as int, c) =~= split(x, '/').push(c));
    }
}

proof fn lemma_split_join(ps: Seq<Seq<char>>)
    requires
        forall|k: int| 0 <= k < ps.len() ==> clean(#[trigger] ps[k]),
    ensures
        split(join(ps), '/') == seq![Seq::<char>::empty()] + ps,
    decreases ps.len(),
{
    if ps.len() == 0 {
        assert(join(ps) =~= Seq::<char>::empty());
        assert(seq![Seq::<char>::empty()] + ps =~= seq![Seq::<char>::empty()]);
    } else {
        lemma_split_join(ps.drop_last());
        assert(clean(ps[ps.len() - 1]));
        lemma_split_after_sep(join(ps.drop_last()), ps.last());
        assert((seq![Seq::<char>::empty()] + ps.drop_last()).push(ps.last()) =~= seq![Seq::<char>::empty()] + ps);
    }
}

proof fn lemma_nonempty_of_clean(ps: Seq<Seq<char>>)
    requires
        forall|k: int| 0 <= k < ps.len() ==> clean(#[trigger] ps[k]),
    ensures
        nonempty_parts(seq![Seq::<char>::empty()] + ps) == ps,
    decreases ps.len(),
{
    let q = seq![Seq::<char>::empty()] + ps;
    if ps.len() == 0 {
        assert(q =~= seq![Seq::<char>::empty()]);
        assert(q.drop_last() =~= Seq::<Seq<char>>::empty());
        assert(q.last().len() == 0);
        assert(nonempty_parts(q) == nonempty_parts(q.drop_last()));
        assert(nonempty_parts(q.drop_last()) == q.drop_last());
        assert(nonempty_parts(q) =~= ps);
    } else {
        assert(q.last() == ps.last());
        assert(q.drop_last() =~= seq![Seq::<char>::empty()] + ps.drop_last());
        lemma_nonempty_of_clean(ps.drop_last());
        assert(clean(ps[ps.len() - 1]));
        assert(ps.drop_last().push(ps.last()) =~= ps);
        assert(q.last().len() > 0);
        assert(nonempty_parts(q) == nonempty_parts(q.drop_last()).push(q.last()));
    }
}

proof fn lemma_text_of_classify(c: Seq<char>)
    requires
        c.len() > 0,
    ensures
        seg_text(classify(c)) == c,
{
    if c[0] == ':' || (c[0] == '*' && !(c =~= seq!['*'])) {
        assert(seq![c[0]] + c.drop_first() =~= c);
    }
}

proof fn lemma_render_parts(ps: Seq<Seq<char>>)
    requires
        forall|k: int| 0 <= k < ps.len() ==> clean(#[trigger] ps[k]),
    ensures
        render_body(ps.map_values(|c: Seq<char>| classify(c))) == join(ps),
    decreases ps.len(),
{
    if ps.len() > 0 {
        assert(ps.map_values(|c: Seq<char>| classify(c)).drop_last() =~= ps.drop_last().map_values(
            |c: Seq<char>| classify(c),
        ));
        lemma_render_parts(ps.drop_last());
        assert(clean(ps[ps.len() - 1]));
        lemma_text_of_classify(ps.last());
    }
}

/// Rendering the segments of a path and parsing the text again gives the same
/// segments: same kinds, same literal text, same names.
pub proof fn lemma_path_round_trip(path: Seq<char>)
    requires
        parse_path_spec(path) is Ok,
    ensures
        path_segments(render_path_spec(path_segments(path))) == path_segments(path),
        parse_path_spec(render_path_spec(path_segments(path))) == parse_path_spec(path),
{
    let ps = nonempty_parts(split(path, '/'));
    lemma_split_parts_free(path, '/');
    lemma_nonempty_clean(split(path, '/'));
    lemma_render_parts(ps);
    if ps.len() == 0 {
        let r = seq!['/'];
        assert(r =~= Seq::<char>::empty() + seq!['/'] + Seq::<char>::empty());
        lemma_split_after_sep(Seq::<char>::empty(), Seq::<char>::empty());
        assert(split(Seq::<char>::empty(), '/') == seq![Seq::<char>::empty()]);
        lemma_nonempty_of_clean(ps);
        assert(seq![Seq::<char>::empty()] + ps =~= seq![Seq::<char>::empty()]);
        assert(split(r, '/') =~= seq![Seq::<char>::empty(), Seq::<char>::empty()]);
        let q = seq![Seq::<char>::empty(), Seq::<char>::empty()];
        assert(q.drop_last() =~= seq![Seq::<char>::empty()]);
        assert(nonempty_parts(q) == nonempty_parts(seq![Seq::<char>::empty()]));
        assert(seq![Seq::<char>::empty()].drop_last() =~= Seq::<Seq<char>>::empty());
        assert(path_segments(r) =~= path_segments(path));
    } else {
        lemma_split_join(ps);
        lemma_nonempty_of_clean(ps);
    }
}

} // verus!
