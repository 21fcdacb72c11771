//! Debug lines drawn over the scene: a line is drawn once, or on every frame
//! when it persists.
use vstd::prelude::*;

verus! {

/// A line segment between two points, kept across frames when `persist` is set.
pub struct Line<P> {
    pub persist: bool,
    pub p0: P,
    pub p1: P,
}

/// The lines waiting to be drawn.
pub struct Gizmos<P> {
    pub lines: Vec<Line<P>>,
}

/// The end points of `lines`, in order.
pub open spec fn segments<P>(lines: Seq<Line<P>>) -> Seq<(P, P)> {
    lines.map_values(|l: Line<P>| (l.p0, l.p1))
}

/// The lines of `lines` that persist, in order.
pub open spec fn persisting<P>(lines: Seq<Line<P>>) -> Seq<Line<P>> {
    lines.filter(|l: Line<P>| l.persist)
}

/// No lines yet.
pub fn init_gizmos<P>() -> (g: Gizmos<P>)
    ensures
        g.lines@.len() == 0,
{
    Gizmos { lines: Vec::new() }
}

/// Queues a line from `p0` to `p1`.
pub fn gizmos_add_line<P>(g: &mut Gizmos<P>, persist: bool, p0: P, p1: P)
    ensures
        final(g).lines@ == old(g).lines@.push(Line { persist, p0, p1 }),
{
    g.lines.push(Line { persist, p0, p1 });
}

/// Takes one frame's lines: returns the segments to draw, every queued line in
/// order, and keeps only the lines that persist.
pub fn draw_gizmos<P: Copy>(g: &mut Gizmos<P>) -> (drawn: Vec<(P, P)>)
    ensures
        drawn@ == segments(old(g).lines@),
        final(g).lines@ == persisting(old(g).lines@),
{
    let ghost lines = g.lines@;
    let mut drawn: Vec<(P, P)> = Vec::new();
    let mut kept: Vec<Line<P>> = Vec::new();
    let mut k: usize = 0;
    while k < g.lines.len()
        invariant
            g.lines@ == lines,
            0 <= k <= lines.len(),
            drawn@ == segments(lines.subrange(0, k as int)),
            kept@ == persisting(lines.subrange(0, k as int)),
        decreases lines.len() - k,
    {
        let line = &g.lines[k];
        drawn.push((line.p0, line.p1));
        if line.persist {
            kept.push(Line { persist: true, p0: line.p0, p1: line.p1 });
        }
        proof {
            let prefix = lines.subrange(0, k as int);
            let next = lines.subrange(0, k + 1);
            assert(prefix.push(lines[k as int]) =~= next);
            assert(segments(next) =~= segments(prefix).push((lines[k as int].p0, lines[k as int].p1)));
            prefix.lemma_filter_push(lines[k as int], |l: Line<P>| l.persist);
        }
        k = k + 1;
    }
    assert(lines.subrange(0, lines.len() as int) =~= lines);
    g.lines = kept;
    drawn
}


proof fn lemma_persisting_twice<P>(lines: Seq<Line<P>>)
    ensures
        persisting(persisting(lines)) == persisting(lines),
    decreases lines.len(),
{
    if lines.len() > 0 {
        let init = lines.drop_last();
        let l = lines.last();
        assert(init.push(l) =~= lines);
        lemma_persisting_twice(init);
        init.lemma_filter_push(l, |l: Line<P>| l.persist);
        persisting(init).lemma_filter_push(l, |l: Line<P>| l.persist);
    }
}

/// A frame draws every queued line; the next frame, with no line added, draws
/// exactly the persistent ones again, and they stay: persistent lines are drawn
/// on every frame, the others on one frame only.
pub proof fn law_persistent_lines_stay<P>(first: Seq<Line<P>>, second: Seq<Line<P>>)
    requires
        second == persisting(first),
    ensures
        persisting(second) == second,
        segments(second) == segments(first.filter(|l: Line<P>| l.persist)),
{
    lemma_persisting_twice(first);
}

} // verus!
