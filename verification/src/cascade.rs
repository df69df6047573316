use vstd::prelude::*;
use crate::board::{adjacent, Board};
use crate::tile::{State, TileType};

verus! {

/// A blank cell (any count) that is still covered.
pub open spec fn covered_blank(a: Board, x: int, y: int) -> bool {
    &&& a.in_bounds(x, y)
    &&& a.cell(x, y).tile_type is Blank
    &&& a.cell(x, y).state == State::Covered
}

/// A covered blank cell whose stored count is zero.
pub open spec fn covered_zero(a: Board, x: int, y: int) -> bool {
    &&& a.in_bounds(x, y)
    &&& a.cell(x, y).tile_type == TileType::Blank(0u8)
    &&& a.cell(x, y).state == State::Covered
}

/// The cell was covered before and is revealed after.
pub open spec fn newly_revealed(a: Board, b: Board, x: int, y: int) -> bool {
    &&& a.in_bounds(x, y)
    &&& a.cell(x, y).state == State::Covered
    &&& b.cell(x, y).state == State::Revealed
}

/// What any reveal may do to the grid: no kind ever changes, and a cell
/// either keeps its whole value or goes from covered to revealed -- and
/// only a blank may do that. Mines and flags are untouchable.
pub open spec fn reveal_frame(a: Board, b: Board) -> bool {
    &&& b.config == a.config
    &&& forall|x: int, y: int|
        a.in_bounds(x, y) ==> (#[trigger] b.cell(x, y) == a.cell(x, y) || (b.cell(
            x,
            y,
        ).tile_type == a.cell(x, y).tile_type && a.cell(x, y).state == State::Covered && b.cell(
            x,
            y,
        ).state == State::Revealed && a.cell(x, y).tile_type is Blank))
}

/// No covered blank neighbor survives next to a newly revealed
/// zero-count cell: the cascade never stops half-way.
pub open spec fn cascade_closed(a: Board, b: Board) -> bool {
    forall|x: int, y: int, i: int, j: int|
        #![trigger newly_revealed(a, b, x, y), adjacent(x, y, i, j)]
        newly_revealed(a, b, x, y) && covered_zero(a, x, y) && adjacent(x, y, i, j)
            && covered_blank(a, i, j) ==> b.cell(i, j).state == State::Revealed
}

/// Every stop of the path is a covered zero cell, and consecutive stops
/// are adjacent.
pub open spec fn is_zero_chain(a: Board, p: Seq<(int, int)>) -> bool {
    &&& forall|k: int| 0 <= k < p.len() ==> covered_zero(a, (#[trigger] p[k]).0, p[k].1)
    &&& forall|k: int|
        0 <= k && k + 1 < p.len() ==> adjacent(
            (#[trigger] p[k]).0,
            p[k].1,
            p[k + 1].0,
            p[k + 1].1,
        )
}

/// `(x, y)` belongs to the connected covered zero region of `(x0, y0)`:
/// a chain of adjacent covered zero cells joins the two.
pub open spec fn zero_reachable(a: Board, x0: int, y0: int, x: int, y: int) -> bool {
    exists|p: Seq<(int, int)>|
        #[trigger] is_zero_chain(a, p) && p.len() > 0 && p[0] == (x0, y0) && p[p.len() - 1] == (
        x,
        y,
        )
}

/// Every newly revealed cell is the reveal target itself, lies in the
/// target's connected covered zero region, or touches that region: the
/// cascade never reaches past the region's numbered border.
pub open spec fn cascade_sound(a: Board, b: Board, x0: int, y0: int) -> bool {
    forall|x: int, y: int|
        #[trigger] newly_revealed(a, b, x, y) ==> ((x == x0 && y == y0) || zero_reachable(
            a,
            x0,
            y0,
            x,
            y,
        ) || exists|i: int, j: int|
            adjacent(i, j, x, y) && #[trigger] zero_reachable(a, x0, y0, i, j))
}

/// A covered cell that actually holds a mine: revealing it loses.
pub open spec fn covered_mine(a: Board, x: int, y: int) -> bool {
    &&& a.in_bounds(x, y)
    &&& a.cell(x, y).state == State::Covered
    &&& a.cell(x, y).is_mine()
}

/// What a chord reveal may open: every newly revealed cell is one of the
/// target's neighbors, or was flooded from such a neighbor's covered
/// zero region, or borders that region.
pub open spec fn chord_sound(a: Board, b: Board, x0: int, y0: int) -> bool {
    forall|u: int, v: int|
        #[trigger] newly_revealed(a, b, u, v) ==> exists|i: int, j: int|
            #![trigger adjacent(x0, y0, i, j)]
            adjacent(x0, y0, i, j) && ((u == i && v == j) || zero_reachable(a, i, j, u, v) || (
            exists|p: int, q: int|
                adjacent(p, q, u, v) && #[trigger] zero_reachable(a, i, j, p, q)))
}

/// A covered zero cell reaches itself.
pub proof fn lemma_zero_reachable_self(a: Board, x: int, y: int)
    requires
        covered_zero(a, x, y),
    ensures
        zero_reachable(a, x, y, x, y),
{
    let p = seq![(x, y)];
    assert(is_zero_chain(a, p));
    assert(p[0] == (x, y) && p[p.len() - 1] == (x, y));
}

/// The region grows across one adjacency.
pub proof fn lemma_zero_reachable_step(a: Board, x0: int, y0: int, cx: int, cy: int, x: int, y: int)
    requires
        zero_reachable(a, x0, y0, cx, cy),
        adjacent(cx, cy, x, y),
        covered_zero(a, x, y),
    ensures
        zero_reachable(a, x0, y0, x, y),
{
    let p = choose|p: Seq<(int, int)>|
        #[trigger] is_zero_chain(a, p) && p.len() > 0 && p[0] == (x0, y0) && p[p.len() - 1] == (
        cx,
        cy,
        );
    let p2 = p.push((x, y));
    assert forall|k: int| 0 <= k < p2.len() implies covered_zero(
        a,
        (#[trigger] p2[k]).0,
        p2[k].1,
    ) by {
        if k < p.len() {
            assert(p2[k] == p[k]);
        }
    }
    assert forall|k: int| 0 <= k && k + 1 < p2.len() implies adjacent(
        (#[trigger] p2[k]).0,
        p2[k].1,
        p2[k + 1].0,
        p2[k + 1].1,
    ) by {
        if k + 1 < p.len() {
            assert(p2[k] == p[k] && p2[k + 1] == p[k + 1]);
        } else {
            assert(p2[k] == p[p.len() - 1] && p2[k + 1] == (x, y));
        }
    }
    assert(is_zero_chain(a, p2));
    assert(p2[0] == (x0, y0) && p2[p2.len() - 1] == (x, y));
}

/// A frame from `a` keeps every covered zero chain of the later board:
/// whatever is still covered now was covered before, unchanged.
pub proof fn lemma_zero_reachable_mono(a: Board, m: Board, x0: int, y0: int, x: int, y: int)
    requires
        reveal_frame(a, m),
        zero_reachable(m, x0, y0, x, y),
    ensures
        zero_reachable(a, x0, y0, x, y),
{
    let p = choose|p: Seq<(int, int)>|
        #[trigger] is_zero_chain(m, p) && p.len() > 0 && p[0] == (x0, y0) && p[p.len() - 1] == (
        x,
        y,
        );
    assert forall|k: int| 0 <= k < p.len() implies covered_zero(
        a,
        (#[trigger] p[k]).0,
        p[k].1,
    ) by {
        assert(covered_zero(m, p[k].0, p[k].1));
        assert(m.cell(p[k].0, p[k].1) == a.cell(p[k].0, p[k].1));
    }
    assert(is_zero_chain(a, p));
}

/// Reveal frames compose.
pub proof fn lemma_frame_trans(a: Board, m: Board, b: Board)
    requires
        reveal_frame(a, m),
        reveal_frame(m, b),
    ensures
        reveal_frame(a, b),
{
    assert forall|x: int, y: int|
        a.in_bounds(x, y) implies (#[trigger] b.cell(x, y) == a.cell(x, y) || (b.cell(
        x,
        y,
    ).tile_type == a.cell(x, y).tile_type && a.cell(x, y).state == State::Covered && b.cell(
        x,
        y,
    ).state == State::Revealed && a.cell(x, y).tile_type is Blank)) by {
        assert(m.cell(x, y) == a.cell(x, y) || (m.cell(x, y).tile_type == a.cell(x, y).tile_type
            && a.cell(x, y).state == State::Covered && m.cell(x, y).state == State::Revealed
            && a.cell(x, y).tile_type is Blank));
        assert(b.cell(x, y) == m.cell(x, y) || (b.cell(x, y).tile_type == m.cell(x, y).tile_type
            && m.cell(x, y).state == State::Covered && b.cell(x, y).state == State::Revealed
            && m.cell(x, y).tile_type is Blank));
    }
}

/// Cascade closure composes along a pair of frames.
pub proof fn lemma_closed_compose(a: Board, m: Board, b: Board)
    requires
        reveal_frame(a, m),
        reveal_frame(m, b),
        cascade_closed(a, m),
        cascade_closed(m, b),
    ensures
        cascade_closed(a, b),
{
    assert forall|x: int, y: int, i: int, j: int|
        #![trigger newly_revealed(a, b, x, y), adjacent(x, y, i, j)]
        newly_revealed(a, b, x, y) && covered_zero(a, x, y) && adjacent(x, y, i, j)
            && covered_blank(a, i, j) implies b.cell(i, j).state == State::Revealed by {
        if m.cell(x, y).state == State::Revealed {
            // the zero cell was opened in the first step: its covered
            // neighbors were opened there too, and stay open
            assert(newly_revealed(a, m, x, y));
            assert(m.cell(i, j).state == State::Revealed);
            assert(b.cell(i, j) == m.cell(i, j) || b.cell(i, j).state == State::Revealed);
        } else {
            // opened only in the second step; its cell was untouched by
            // the first, and so was any neighbor still covered there
            assert(m.cell(x, y) == a.cell(x, y));
            assert(newly_revealed(m, b, x, y));
            assert(covered_zero(m, x, y));
            if m.cell(i, j).state == State::Covered {
                assert(m.cell(i, j) == a.cell(i, j));
                assert(covered_blank(m, i, j));
            } else {
                assert(m.cell(i, j).state == State::Revealed);
                assert(b.cell(i, j) == m.cell(i, j) || b.cell(i, j).state == State::Revealed);
            }
        }
    }
}

impl Board {
    /// Reveal the single cell `(x, y)`: a covered mine answers `true`
    /// and nothing changes; a covered blank is revealed, and a zero-count
    /// blank floods its whole connected zero region plus that region's
    /// numbered border. Flagged, already revealed and off-board positions
    /// are left alone.
    #[verifier::rlimit(50)]
    pub(crate) fn reveal_at(&mut self, x: usize, y: usize) -> (hit: bool)
        requires
            old(self).wf(),
        ensures
            final(self).wf(),
            reveal_frame(*old(self), *final(self)),
            cascade_closed(*old(self), *final(self)),
            cascade_sound(*old(self), *final(self), x as int, y as int),
            hit == (old(self).in_bounds(x as int, y as int)
                && old(self).cell(x as int, y as int).state == State::Covered
                && old(self).cell(x as int, y as int).is_mine()),
            !(old(self).in_bounds(x as int, y as int)
                && old(self).cell(x as int, y as int).state == State::Covered
                && !old(self).cell(x as int, y as int).is_mine())
                ==> *final(self) == *old(self),
            (old(self).in_bounds(x as int, y as int)
                && old(self).cell(x as int, y as int).state == State::Covered
                && !old(self).cell(x as int, y as int).is_mine())
                ==> final(self).cell(x as int, y as int).state == State::Revealed,
    {
        let ghost a = *old(self);
        if !(x < self.config.width as usize && y < self.config.height as usize) {
            return false;
        }
        let t = self.board[x][y];
        match t.state {
            State::Flag => false,
            State::Revealed => false,
            State::Covered => {
                match t.tile_type {
                    TileType::Mine => true,
                    TileType::Blank(num) => {
                        let ghost pre0 = *self;
                        self.set_cell(
                            x,
                            y,
                            crate::tile::Tile { tile_type: t.tile_type, state: State::Revealed },
                        );
                        proof {
                            Board::lemma_count_cells_update(
                                pre0,
                                *self,
                                crate::count::CellTest::IsCovered,
                                x as int,
                                y as int,
                            );
                        }
                        if num == 0 {
                            proof {
                                lemma_zero_reachable_self(a, x as int, y as int);
                            }
                            let mut stack: Vec<(usize, usize)> = Vec::new();
                            stack.push((x, y));
                            proof {
                                self.lemma_count_cells_nonneg(crate::count::CellTest::IsCovered);
                                assert(stack@[0] == (x, y));
                                assert(stack@.contains((x, y)));
                                assert forall|i: int, j: int, u: int, v: int|
                                    #![trigger newly_revealed(a, *self, i, j), adjacent(i, j, u, v)]
                                    newly_revealed(a, *self, i, j) && covered_zero(a, i, j)
                                        && adjacent(i, j, u, v) && covered_blank(a, u, v)
                                        implies self.cell(u, v).state == State::Revealed
                                        || stack@.contains((i as usize, j as usize)) by {
                                    if i == x as int && j == y as int {
                                        assert((i as usize, j as usize) == (x, y));
                                    } else {
                                        assert(self.cell(i, j) == a.cell(i, j));
                                        assert(false);
                                    }
                                }
                            }
                            while stack.len() > 0
                                invariant
                                    self.wf(),
                                    a.wf(),
                                    self.config == a.config,
                                    covered_zero(a, x as int, y as int),
                                    reveal_frame(a, *self),
                                    newly_revealed(a, *self, x as int, y as int),
                                    cascade_sound(a, *self, x as int, y as int),
                                    forall|q: int|
                                        0 <= q < stack@.len() ==> covered_zero(
                                            a,
                                            (#[trigger] stack@[q]).0 as int,
                                            stack@[q].1 as int,
                                        ) && self.cell(
                                            stack@[q].0 as int,
                                            stack@[q].1 as int,
                                        ).state == State::Revealed && zero_reachable(
                                            a,
                                            x as int,
                                            y as int,
                                            stack@[q].0 as int,
                                            stack@[q].1 as int,
                                        ),
                                    forall|i: int, j: int, u: int, v: int|
                                        #![trigger newly_revealed(a, *self, i, j), adjacent(i, j, u, v)]
                                        newly_revealed(a, *self, i, j) && covered_zero(a, i, j)
                                            && adjacent(i, j, u, v) && covered_blank(a, u, v)
                                            ==> self.cell(u, v).state == State::Revealed
                                            || stack@.contains((i as usize, j as usize)),
                                    0 <= self.covered_cells(),
                                decreases self.covered_cells(), stack@.len(),
                            {
                                let ghost stack_pre = stack@;
                                let popped = stack.pop();
                                let pr = popped.unwrap();
                                let cx = pr.0;
                                let cy = pr.1;
                                proof {
                                    assert(stack_pre[stack_pre.len() - 1] == pr);
                                    assert(covered_zero(a, cx as int, cy as int));
                                    assert(stack_pre =~= stack@.push(pr));
                                    assert forall|t: (usize, usize)|
                                        stack_pre.contains(t) && t != pr implies #[trigger] stack@.contains(t) by {
                                        crate::place::lemma_contains_push(stack@, pr, t);
                                    }
                                    assert forall|i: int, j: int, u: int, v: int|
                                        #![trigger newly_revealed(a, *self, i, j), adjacent(i, j, u, v)]
                                        newly_revealed(a, *self, i, j) && covered_zero(a, i, j)
                                            && adjacent(i, j, u, v) && covered_blank(a, u, v)
                                            implies self.cell(u, v).state == State::Revealed
                                            || stack@.contains((i as usize, j as usize)) || (i
                                            == cx as int && j == cy as int) by {
                                        if self.cell(u, v).state != State::Revealed && !(i
                                            == cx as int && j == cy as int) {
                                            assert(stack_pre.contains((i as usize, j as usize)));
                                            assert((i as usize, j as usize) != pr);
                                        }
                                    }
                                }
                                let ghost m0 = *self;
                                let ghost cov0 = self.covered_cells();
                                let ghost len0 = stack@.len();
                                let neighbors = self.get_neighbors(cx, cy);
                                let mut ni: usize = 0;
                                while ni < neighbors.len()
                                    invariant
                                        self.wf(),
                                        a.wf(),
                                        self.config == a.config,
                                        covered_zero(a, x as int, y as int),
                                        covered_zero(a, cx as int, cy as int),
                                        zero_reachable(a, x as int, y as int, cx as int, cy as int),
                                        reveal_frame(a, *self),
                                        newly_revealed(a, *self, x as int, y as int),
                                        cascade_sound(a, *self, x as int, y as int),
                                        ni <= neighbors@.len(),
                                        forall|q: int|
                                            0 <= q < neighbors@.len() ==> a.in_bounds(
                                                (#[trigger] neighbors@[q]).0 as int,
                                                neighbors@[q].1 as int,
                                            ) && adjacent(
                                                cx as int,
                                                cy as int,
                                                neighbors@[q].0 as int,
                                                neighbors@[q].1 as int,
                                            ),
                                        forall|i: usize, j: usize|
                                            a.in_bounds(i as int, j as int) && adjacent(
                                                cx as int,
                                                cy as int,
                                                i as int,
                                                j as int,
                                            ) ==> #[trigger] neighbors@.contains((i, j)),
                                        forall|q: int|
                                            0 <= q < ni ==> (covered_blank(
                                                a,
                                                (#[trigger] neighbors@[q]).0 as int,
                                                neighbors@[q].1 as int,
                                            ) ==> self.cell(
                                                neighbors@[q].0 as int,
                                                neighbors@[q].1 as int,
                                            ).state == State::Revealed),
                                        forall|q: int|
                                            0 <= q < stack@.len() ==> covered_zero(
                                                a,
                                                (#[trigger] stack@[q]).0 as int,
                                                stack@[q].1 as int,
                                            ) && self.cell(
                                                stack@[q].0 as int,
                                                stack@[q].1 as int,
                                            ).state == State::Revealed && zero_reachable(
                                                a,
                                                x as int,
                                                y as int,
                                                stack@[q].0 as int,
                                                stack@[q].1 as int,
                                            ),
                                        forall|i: int, j: int, u: int, v: int|
                                            #![trigger newly_revealed(a, *self, i, j), adjacent(i, j, u, v)]
                                            newly_revealed(a, *self, i, j) && covered_zero(a, i, j)
                                                && adjacent(i, j, u, v) && covered_blank(a, u, v)
                                                ==> self.cell(u, v).state == State::Revealed
                                                || stack@.contains((i as usize, j as usize)) || (i
                                                == cx as int && j == cy as int),
                                        self.covered_cells() <= cov0,
                                        self.covered_cells() + stack@.len() <= cov0 + len0,
                                        0 <= self.covered_cells(),
                                    decreases neighbors@.len() - ni,
                                {
                                    let upair = neighbors[ni];
                                    let ux = upair.0;
                                    let uy = upair.1;
                                    let ut = self.board[ux][uy];
                                    if let TileType::Blank(un) = ut.tile_type {
                                        if let State::Covered = ut.state {
                                            proof {
                                                // still covered now, so untouched since the start
                                                assert(self.cell(ux as int, uy as int) == a.cell(
                                                    ux as int,
                                                    uy as int,
                                                ));
                                                assert(covered_blank(a, ux as int, uy as int));
                                            }
                                            let ghost prev = *self;
                                            self.set_cell(
                                                ux,
                                                uy,
                                                crate::tile::Tile {
                                                    tile_type: ut.tile_type,
                                                    state: State::Revealed,
                                                },
                                            );
                                            proof {
                                                Board::lemma_count_cells_update(
                                                    prev,
                                                    *self,
                                                    crate::count::CellTest::IsCovered,
                                                    ux as int,
                                                    uy as int,
                                                );
                                                self.lemma_count_cells_nonneg(
                                                    crate::count::CellTest::IsCovered,
                                                );
                                                if un == 0 {
                                                    lemma_zero_reachable_step(
                                                        a,
                                                        x as int,
                                                        y as int,
                                                        cx as int,
                                                        cy as int,
                                                        ux as int,
                                                        uy as int,
                                                    );
                                                }
                                            }
                                            let ghost stack_b = stack@;
                                            if un == 0 {
                                                let ghost stack0 = stack@;
                                                stack.push((ux, uy));
                                                proof {
                                                    assert forall|t: (usize, usize)|
                                                        stack0.contains(t) implies #[trigger] stack@.contains(t) by {
                                                        crate::place::lemma_contains_push(
                                                            stack0,
                                                            (ux, uy),
                                                            t,
                                                        );
                                                    }
                                                    assert(stack@[stack0.len() as int] == (ux, uy));
                                                    assert(stack@.contains((ux, uy)));
                                                }
                                            }
                                            proof {
                                                assert(adjacent(
                                                    cx as int,
                                                    cy as int,
                                                    ux as int,
                                                    uy as int,
                                                ));
                                                assert forall|p: int, q: int|
                                                    #[trigger] newly_revealed(a, *self, p, q)
                                                    implies ((p == x as int && q == y as int)
                                                    || zero_reachable(a, x as int, y as int, p, q)
                                                    || exists|i: int, j: int|
                                                        adjacent(i, j, p, q)
                                                            && #[trigger] zero_reachable(
                                                            a,
                                                            x as int,
                                                            y as int,
                                                            i,
                                                            j,
                                                        )) by {
                                                    if p == ux as int && q == uy as int {
                                                        if un == 0 {
                                                            assert(covered_zero(a, p, q));
                                                            assert(zero_reachable(
                                                                a,
                                                                x as int,
                                                                y as int,
                                                                p,
                                                                q,
                                                            ));
                                                        } else {
                                                            assert(zero_reachable(
                                                                a,
                                                                x as int,
                                                                y as int,
                                                                cx as int,
                                                                cy as int,
                                                            ));
                                                        }
                                                    } else {
                                                        assert(newly_revealed(a, prev, p, q));
                                                    }
                                                }
                                                assert forall|i: int, j: int, u: int, v: int|
                                                    #![trigger newly_revealed(a, *self, i, j), adjacent(i, j, u, v)]
                                                    newly_revealed(a, *self, i, j) && covered_zero(
                                                        a,
                                                        i,
                                                        j,
                                                    ) && adjacent(i, j, u, v) && covered_blank(
                                                        a,
                                                        u,
                                                        v,
                                                    ) implies self.cell(u, v).state
                                                    == State::Revealed || stack@.contains(
                                                    (i as usize, j as usize),
                                                ) || (i == cx as int && j == cy as int) by {
                                                    if i == ux as int && j == uy as int {
                                                        assert(un == 0);
                                                        assert(stack@.contains(
                                                            (i as usize, j as usize),
                                                        ));
                                                    } else {
                                                        assert(newly_revealed(a, prev, i, j));
                                                        assert(prev.cell(u, v).state
                                                            == State::Revealed || stack_b.contains(
                                                            (i as usize, j as usize),
                                                        ) || (i == cx as int && j == cy as int));
                                                        if prev.cell(u, v).state
                                                            == State::Revealed {
                                                            assert(self.cell(u, v).state
                                                                == State::Revealed);
                                                        } else if stack_b.contains(
                                                            (i as usize, j as usize),
                                                        ) {
                                                            assert(stack@.contains(
                                                                (i as usize, j as usize),
                                                            ));
                                                        }
                                                    }
                                                }
                                            }
                                        }
                                    }
                                    ni = ni + 1;
                                }
                                proof {
                                    // the popped cell's duties are all met: every
                                    // covered blank around it sits in the neighbor
                                    // list, whose whole prefix is now revealed
                                    assert forall|i: int, j: int, u: int, v: int|
                                        #![trigger newly_revealed(a, *self, i, j), adjacent(i, j, u, v)]
                                        newly_revealed(a, *self, i, j) && covered_zero(a, i, j)
                                            && adjacent(i, j, u, v) && covered_blank(a, u, v)
                                            implies self.cell(u, v).state == State::Revealed
                                            || stack@.contains((i as usize, j as usize)) by {
                                        if i == cx as int && j == cy as int && self.cell(
                                            u,
                                            v,
                                        ).state != State::Revealed && !stack@.contains(
                                            (i as usize, j as usize),
                                        ) {
                                            assert(a.in_bounds(u, v));
                                            assert(adjacent(
                                                cx as int,
                                                cy as int,
                                                u as usize as int,
                                                v as usize as int,
                                            ));
                                            assert(neighbors@.contains((u as usize, v as usize)));
                                            let q = choose|q: int|
                                                0 <= q < neighbors@.len() && neighbors@[q] == (
                                                u as usize,
                                                v as usize,
                                                );
                                            assert(covered_blank(
                                                a,
                                                neighbors@[q].0 as int,
                                                neighbors@[q].1 as int,
                                            ));
                                            assert(false);
                                        }
                                    }
                                }
                            }
                        }
                        false
                    },
                }
            },
        }
    }
}

impl Board {
    /// The player's reveal action at `(x, y)`.
    ///
    /// On a covered cell this is a plain reveal: a mine answers `true`
    /// (a loss) and stays covered; a blank is revealed, a zero-count
    /// blank flooding its whole connected zero region plus that region's
    /// numbered border. On an already revealed cell with `try_neighbors`
    /// set it is the chord action: every neighbor is revealed in turn,
    /// and the answer is `true` exactly when one of them hid a mine.
    /// Flagged and off-board cells are always left alone.
    pub fn reveal_tile(&mut self, x: usize, y: usize, try_neighbors: bool) -> (hit: bool)
        requires
            old(self).wf(),
        ensures
            final(self).wf(),
            reveal_frame(*old(self), *final(self)),
            cascade_closed(*old(self), *final(self)),
            !(old(self).in_bounds(x as int, y as int) && old(self).cell(x as int, y as int).state
                == State::Revealed && try_neighbors) ==> {
                &&& cascade_sound(*old(self), *final(self), x as int, y as int)
                &&& hit == covered_mine(*old(self), x as int, y as int)
                &&& !(old(self).in_bounds(x as int, y as int) && old(self).cell(
                    x as int,
                    y as int,
                ).state == State::Covered && !old(self).cell(x as int, y as int).is_mine())
                    ==> *final(self) == *old(self)
                &&& (old(self).in_bounds(x as int, y as int) && old(self).cell(
                    x as int,
                    y as int,
                ).state == State::Covered && !old(self).cell(x as int, y as int).is_mine())
                    ==> final(self).cell(x as int, y as int).state == State::Revealed
            },
            (old(self).in_bounds(x as int, y as int) && old(self).cell(x as int, y as int).state
                == State::Revealed && try_neighbors) ==> {
                &&& chord_sound(*old(self), *final(self), x as int, y as int)
                &&& hit == exists|i: int, j: int|
                    adjacent(x as int, y as int, i, j) && #[trigger] covered_mine(
                        *old(self),
                        i,
                        j,
                    )
            },
    {
        let ghost a = *old(self);
        let chord = try_neighbors && self.revealed(x, y);
        if chord {
            let neighbors = self.get_neighbors(x, y);
            let mut bol = false;
            let mut ni: usize = 0;
            while ni < neighbors.len()
                invariant
                    self.wf(),
                    a.wf(),
                    self.config == a.config,
                    ni <= neighbors@.len(),
                    forall|q: int|
                        0 <= q < neighbors@.len() ==> a.in_bounds(
                            (#[trigger] neighbors@[q]).0 as int,
                            neighbors@[q].1 as int,
                        ) && adjacent(
                            x as int,
                            y as int,
                            neighbors@[q].0 as int,
                            neighbors@[q].1 as int,
                        ),
                    forall|i: usize, j: usize|
                        a.in_bounds(i as int, j as int) && adjacent(
                            x as int,
                            y as int,
                            i as int,
                            j as int,
                        ) ==> #[trigger] neighbors@.contains((i, j)),
                    reveal_frame(a, *self),
                    cascade_closed(a, *self),
                    chord_sound(a, *self, x as int, y as int),
                    bol <==> exists|q: int|
                        0 <= q < ni as int && covered_mine(
                            a,
                            (#[trigger] neighbors@[q]).0 as int,
                            neighbors@[q].1 as int,
                        ),
                decreases neighbors@.len() - ni,
            {
                let pair = neighbors[ni];
                let nx = pair.0;
                let ny = pair.1;
                let ghost m = *self;
                let h = self.reveal_at(nx, ny);
                proof {
                    lemma_frame_trans(a, m, *self);
                    lemma_closed_compose(a, m, *self);
                    // a mine sits untouched under any frame, so the
                    // answer of this step reads off the original board
                    assert(m.cell(nx as int, ny as int).is_mine() == a.cell(
                        nx as int,
                        ny as int,
                    ).is_mine());
                    if a.cell(nx as int, ny as int).is_mine() {
                        assert(m.cell(nx as int, ny as int) == a.cell(nx as int, ny as int));
                    }
                    assert(h == covered_mine(a, nx as int, ny as int));
                    assert forall|u: int, v: int|
                        #[trigger] newly_revealed(a, *self, u, v) implies exists|i: int, j: int|
                        #![trigger adjacent(x as int, y as int, i, j)]
                        adjacent(x as int, y as int, i, j) && ((u == i && v == j)
                            || zero_reachable(a, i, j, u, v) || (exists|p: int, q: int|
                            adjacent(p, q, u, v) && #[trigger] zero_reachable(
                                a,
                                i,
                                j,
                                p,
                                q,
                            ))) by {
                        if newly_revealed(a, m, u, v) {
                            assert(chord_sound(a, m, x as int, y as int));
                        } else {
                            assert(newly_revealed(m, *self, u, v));
                            assert(adjacent(x as int, y as int, nx as int, ny as int));
                            if u == nx as int && v == ny as int {
                            } else if zero_reachable(m, nx as int, ny as int, u, v) {
                                lemma_zero_reachable_mono(a, m, nx as int, ny as int, u, v);
                            } else {
                                let (p, q) = choose|p: int, q: int|
                                    adjacent(p, q, u, v) && #[trigger] zero_reachable(
                                        m,
                                        nx as int,
                                        ny as int,
                                        p,
                                        q,
                                    );
                                lemma_zero_reachable_mono(a, m, nx as int, ny as int, p, q);
                            }
                        }
                    }
                }
                if h {
                    bol = true;
                }
                ni = ni + 1;
            }
            proof {
                assert forall|i: int, j: int|
                    adjacent(x as int, y as int, i, j) && #[trigger] covered_mine(a, i, j)
                    implies bol by {
                    assert(neighbors@.contains((i as usize, j as usize)));
                    let q = choose|q: int|
                        0 <= q < neighbors@.len() && neighbors@[q] == (i as usize, j as usize);
                    assert(covered_mine(
                        a,
                        neighbors@[q].0 as int,
                        neighbors@[q].1 as int,
                    ));
                }
                if bol {
                    let q = choose|q: int|
                        0 <= q < ni as int && covered_mine(
                            a,
                            (#[trigger] neighbors@[q]).0 as int,
                            neighbors@[q].1 as int,
                        );
                    assert(adjacent(
                        x as int,
                        y as int,
                        neighbors@[q].0 as int,
                        neighbors@[q].1 as int,
                    ));
                }
            }
            bol
        } else {
            self.reveal_at(x, y)
        }
    }
}

} // verus!
