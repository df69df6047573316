use vstd::prelude::*;
use crate::board::{adjacent, flag_rel, Board};
use crate::cascade::{
    cascade_closed, cascade_sound, covered_blank, covered_zero, is_zero_chain, newly_revealed,
    reveal_frame, zero_reachable,
};
use crate::tile::State;

verus! {

/// Every cell joined to the reveal target by a chain of covered zero
/// cells gets revealed by the cascade.
proof fn lemma_chain_revealed(a: Board, b: Board, x0: int, y0: int, p: Seq<(int, int)>)
    requires
        reveal_frame(a, b),
        cascade_closed(a, b),
        newly_revealed(a, b, x0, y0),
        is_zero_chain(a, p),
        p.len() > 0,
        p[0] == (x0, y0),
    ensures
        newly_revealed(a, b, p[p.len() - 1].0, p[p.len() - 1].1),
    decreases p.len(),
{
    if p.len() > 1 {
        let q = p.drop_last();
        assert forall|k: int| 0 <= k < q.len() implies covered_zero(
            a,
            (#[trigger] q[k]).0,
            q[k].1,
        ) by {
            assert(q[k] == p[k]);
        }
        assert forall|k: int| 0 <= k && k + 1 < q.len() implies adjacent(
            (#[trigger] q[k]).0,
            q[k].1,
            q[k + 1].0,
            q[k + 1].1,
        ) by {
            assert(q[k] == p[k] && q[k + 1] == p[k + 1]);
        }
        lemma_chain_revealed(a, b, x0, y0, q);
        let c = p[p.len() - 2];
        let d = p[p.len() - 1];
        assert(newly_revealed(a, b, c.0, c.1));
        assert(covered_zero(a, c.0, c.1));
        assert(adjacent(c.0, c.1, d.0, d.1));
        assert(covered_zero(a, d.0, d.1));
        assert(covered_blank(a, d.0, d.1));
        assert(b.cell(d.0, d.1).state == State::Revealed);
    }
}

/// Revealing a covered zero-count cell opens exactly its connected zero
/// region together with that region's one-cell numbered border -- every
/// such cell, and no cell beyond it.
pub proof fn lemma_reveal_region(a: Board, b: Board, x0: int, y0: int)
    requires
        a.wf(),
        reveal_frame(a, b),
        cascade_closed(a, b),
        cascade_sound(a, b, x0, y0),
        covered_zero(a, x0, y0),
        newly_revealed(a, b, x0, y0),
    ensures
        forall|u: int, v: int|
            a.in_bounds(u, v) ==> (#[trigger] newly_revealed(a, b, u, v) <==> (zero_reachable(
                a,
                x0,
                y0,
                u,
                v,
            ) || (covered_blank(a, u, v) && exists|i: int, j: int|
                adjacent(i, j, u, v) && #[trigger] zero_reachable(a, x0, y0, i, j)))),
{
    crate::cascade::lemma_zero_reachable_self(a, x0, y0);
    assert forall|u: int, v: int|
        a.in_bounds(u, v) implies (#[trigger] newly_revealed(a, b, u, v) <==> (zero_reachable(
        a,
        x0,
        y0,
        u,
        v,
    ) || (covered_blank(a, u, v) && exists|i: int, j: int|
        adjacent(i, j, u, v) && #[trigger] zero_reachable(a, x0, y0, i, j)))) by {
        if newly_revealed(a, b, u, v) {
            // the frame admits only covered blanks as changed cells
            assert(covered_blank(a, u, v));
            if u == x0 && v == y0 {
                assert(zero_reachable(a, x0, y0, u, v));
            }
        }
        if zero_reachable(a, x0, y0, u, v) {
            let p = choose|p: Seq<(int, int)>|
                #[trigger] is_zero_chain(a, p) && p.len() > 0 && p[0] == (x0, y0) && p[p.len()
                    - 1] == (u, v);
            lemma_chain_revealed(a, b, x0, y0, p);
            assert(newly_revealed(a, b, u, v));
        } else if covered_blank(a, u, v) && exists|i: int, j: int|
            adjacent(i, j, u, v) && #[trigger] zero_reachable(a, x0, y0, i, j) {
            let (i, j) = choose|i: int, j: int|
                adjacent(i, j, u, v) && #[trigger] zero_reachable(a, x0, y0, i, j);
            let p = choose|p: Seq<(int, int)>|
                #[trigger] is_zero_chain(a, p) && p.len() > 0 && p[0] == (x0, y0) && p[p.len()
                    - 1] == (i, j);
            lemma_chain_revealed(a, b, x0, y0, p);
            assert(newly_revealed(a, b, i, j));
            assert(covered_zero(a, i, j));
            assert(b.cell(u, v).state == State::Revealed);
            assert(newly_revealed(a, b, u, v));
        }
    }
}

/// Toggling the flag at one position twice reports deltas that cancel,
/// answers the mine question the same way both times, and puts every
/// cell back as it was.
pub proof fn lemma_flag_toggle_roundtrip(
    b0: Board,
    b1: Board,
    b2: Board,
    x: int,
    y: int,
    d1: int,
    d2: int,
    m1: bool,
    m2: bool,
)
    requires
        flag_rel(b0, b1, x, y, d1, m1),
        flag_rel(b1, b2, x, y, d2, m2),
    ensures
        d1 + d2 == 0,
        m1 == m2,
        forall|i: int, j: int| b0.in_bounds(i, j) ==> #[trigger] b2.cell(i, j) == b0.cell(i, j),
{
    assert forall|i: int, j: int|
        b0.in_bounds(i, j) implies #[trigger] b2.cell(i, j) == b0.cell(i, j) by {
        if b0.in_bounds(x, y) && !(i == x && j == y) {
            assert(b1.cell(i, j) == b0.cell(i, j));
            assert(b2.cell(i, j) == b1.cell(i, j));
        }
    }
}

/// Flagging an already revealed cell reports no delta and leaves every
/// cell exactly as it was, whatever happened before.
pub proof fn lemma_flag_revealed_noop(b0: Board, b1: Board, x: int, y: int, d: int, m: bool)
    requires
        flag_rel(b0, b1, x, y, d, m),
        b0.in_bounds(x, y),
        b0.cell(x, y).state == State::Revealed,
    ensures
        d == 0,
        forall|i: int, j: int| b0.in_bounds(i, j) ==> #[trigger] b1.cell(i, j) == b0.cell(i, j),
{
}

} // verus!
