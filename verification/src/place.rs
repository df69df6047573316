use vstd::prelude::*;
use crate::board::{adjacent, Board};
use crate::count::CellTest;
use crate::rng::Rng;
use crate::tile::{State, Tile, TileType};
use vstd::arithmetic::div_mod::{
    lemma_div_pos_is_pos, lemma_fundamental_div_mod, lemma_mod_bound,
};

verus! {

/// Row-major flattening of a grid position: distinct positions flatten
/// to distinct indices.
proof fn lemma_flatten_injective(h: int, x1: int, y1: int, x2: int, y2: int)
    requires
        h > 0,
        0 <= y1 < h,
        0 <= y2 < h,
        x1 * h + y1 == x2 * h + y2,
    ensures
        x1 == x2 && y1 == y2,
{
    assert(x1 == x2 && y1 == y2) by (nonlinear_arith)
        requires
            h > 0,
            0 <= y1 < h,
            0 <= y2 < h,
            x1 * h + y1 == x2 * h + y2,
    ;
}

/// Membership in a sequence extended by one element.
pub(crate) proof fn lemma_contains_push<A>(s: Seq<A>, e: A, t: A)
    ensures
        s.push(e).contains(t) <==> (s.contains(t) || t == e),
{
    if s.contains(t) {
        let q = choose|q: int| 0 <= q < s.len() && s[q] == t;
        assert(s.push(e)[q] == t);
    }
    if t == e {
        assert(s.push(e)[s.len() as int] == t);
    }
    if s.push(e).contains(t) && t != e {
        let q = choose|q: int| 0 <= q < s.push(e).len() && s.push(e)[q] == t;
        assert(s[q] == t);
    }
}

/// When a single cell turns from blank to mine and no other cell changes
/// its mine-ness, every neighbor count around that cell grows by exactly
/// one, and all others stay.
pub proof fn lemma_mines_around_after_mine(pre: Board, post: Board, mx: int, my: int)
    requires
        post.config == pre.config,
        pre.in_bounds(mx, my),
        !pre.cell(mx, my).is_mine(),
        post.cell(mx, my).is_mine(),
        forall|i: int, j: int|
            pre.in_bounds(i, j) && !(i == mx && j == my)
                ==> (#[trigger] post.cell(i, j)).is_mine() == pre.cell(i, j).is_mine(),
    ensures
        forall|x: int, y: int|
            #[trigger] post.mines_around(x, y) == pre.mines_around(x, y) + if adjacent(
                mx,
                my,
                x,
                y,
            ) {
                1int
            } else {
                0int
            },
{
    assert forall|i: int, j: int|
        #[trigger] post.mine_ind(i, j) == pre.mine_ind(i, j) + if i == mx && j == my {
            1int
        } else {
            0int
        } by {
        if i == mx && j == my {
            assert(!pre.mine_at(i, j));
            assert(post.mine_at(i, j));
        } else if pre.in_bounds(i, j) {
            assert(post.cell(i, j).is_mine() == pre.cell(i, j).is_mine());
        }
    }
}

impl Board {
    /// Draw `config.mines` distinct positions from a seeded generator and
    /// turn them into mines, bumping the stored count of every neighbor
    /// of each mine as it is placed.
    ///
    /// Runs on a fresh board, once, right after construction; the same
    /// seed reproduces the same board. Afterwards every blank cell stores
    /// exactly the number of mines among its neighbors, every cell is
    /// still covered, and the board holds exactly `config.mines` mines.
    pub fn place_mines(&mut self, seed: u64)
        requires
            old(self).wf(),
            old(self).fresh(),
            old(self).config.valid(),
        ensures
            final(self).wf(),
            final(self).config == old(self).config,
            final(self).counts_correct(),
            final(self).total_mines() == old(self).config.mines as int,
            forall|x: int, y: int|
                final(self).in_bounds(x, y)
                    ==> (#[trigger] final(self).cell(x, y)).state == State::Covered,
    {
        let ghost cfg = self.config;
        let w = self.config.width as usize;
        let h = self.config.height as usize;
        proof {
            assert(w * h <= 255 * 255) by (nonlinear_arith)
                requires
                    w <= 255,
                    h <= 255,
            ;
        }
        let total = w * h;
        let mines = self.config.mines as usize;
        proof {
            assert(1 <= w && 1 <= h) by (nonlinear_arith)
                requires
                    (mines as int) < (w as int) * (h as int),
                    0 <= mines,
                    0 <= w,
                    0 <= h,
            ;
        }

        // Every flattened cell index, to be partially shuffled below.
        let mut positions: Vec<usize> = Vec::new();
        let mut k: usize = 0;
        while k < total
            invariant
                k <= total,
                positions@.len() == k as int,
                forall|i: int| 0 <= i < k ==> #[trigger] positions@[i] == i,
            decreases total - k,
        {
            positions.push(k);
            k = k + 1;
        }

        proof {
            assert forall|i: int, j: int|
                self.in_bounds(i, j) implies !crate::count::tile_passes(
                #[trigger] self.cell(i, j),
                CellTest::IsMine,
            ) by {
                assert(self.cell(i, j) == Tile::blank_spec());
            }
            self.lemma_count_cells_none(CellTest::IsMine);
        }

        let mut rng = Rng::new(seed);
        let mut placed: usize = 0;

        while placed < mines
            invariant
                self.wf(),
                self.config == cfg,
                w == cfg.width as usize,
                h == cfg.height as usize,
                1 <= w,
                1 <= h,
                total == w * h,
                total <= 65025,
                mines == cfg.mines as usize,
                mines < total,
                placed <= mines,
                positions@.len() == total as int,
                forall|i: int| 0 <= i < total ==> 0 <= #[trigger] positions@[i] < total,
                forall|i: int, j: int| 0 <= i < j < total ==> positions@[i] != positions@[j],
                forall|i: int, j: int|
                    self.in_bounds(i, j)
                        ==> ((#[trigger] self.cell(i, j)).is_mine() <==> exists|q: int|
                            0 <= q < placed as int && (#[trigger] positions@[q]) == i * (
                            h as int) + j),
                self.counts_correct(),
                forall|i: int, j: int|
                    self.in_bounds(i, j)
                        ==> (#[trigger] self.cell(i, j)).state == State::Covered,
                self.total_mines() == placed as int,
            decreases mines - placed,
        {
            let j = rng.range(placed, total);
            let b = positions[j];
            let a = positions[placed];
            let ghost positions0 = positions@;
            positions[placed] = b;
            positions[j] = a;

            let px = b / h;
            let py = b % h;
            proof {
                lemma_fundamental_div_mod(b as int, h as int);
                lemma_mod_bound(b as int, h as int);
                lemma_div_pos_is_pos(b as int, h as int);
                assert((px as int) < w as int) by (nonlinear_arith)
                    requires
                        (h as int) * (px as int) + (py as int) < (w as int) * (h as int),
                        0 <= (py as int) < h as int,
                        (h as int) > 0,
                        (px as int) >= 0,
                ;
                assert(b as int == (px as int) * (h as int) + (py as int));
                // the drawn index is not yet a mine: it sits in a slot at
                // or past `placed`, and all slots hold distinct indices
                if self.cell(px as int, py as int).is_mine() {
                    let q = choose|q: int|
                        0 <= q < placed as int && (#[trigger] positions0[q]) == (px as int) * (
                        h as int) + (py as int);
                    assert(positions0[q] == b as int);
                    assert(positions0[j as int] == b as int);
                    assert(false);
                }
            }
            let ghost before = *self;

            let r = self.set_tile(px, py, TileType::Mine);
            proof {
                assert(r is Ok);
                Board::lemma_count_cells_update(
                    before,
                    *self,
                    CellTest::IsMine,
                    px as int,
                    py as int,
                );
            }
            let ghost s1 = *self;

            let neighbors = self.get_neighbors(px, py);
            let mut ni: usize = 0;
            while ni < neighbors.len()
                invariant
                    self.wf(),
                    self.config == cfg,
                    s1.wf(),
                    s1.config == cfg,
                    ni <= neighbors@.len(),
                    forall|k1: int, k2: int|
                        0 <= k1 < k2 < neighbors@.len() ==> neighbors@[k1] != neighbors@[k2],
                    forall|q: int|
                        0 <= q < neighbors@.len()
                            ==> s1.in_bounds(
                                (#[trigger] neighbors@[q]).0 as int,
                                neighbors@[q].1 as int,
                            ) && adjacent(
                                px as int,
                                py as int,
                                neighbors@[q].0 as int,
                                neighbors@[q].1 as int,
                            ),
                    forall|i: usize, jj: usize|
                        s1.in_bounds(i as int, jj as int) && adjacent(
                            px as int,
                            py as int,
                            i as int,
                            jj as int,
                        ) ==> #[trigger] neighbors@.contains((i, jj)),
                    forall|i: int, jj: int|
                        s1.in_bounds(i, jj) ==> #[trigger] self.cell(i, jj)
                            == if neighbors@.subrange(0, ni as int).contains(
                            (i as usize, jj as usize),
                        ) {
                            s1.cell(i, jj).marked(true)
                        } else {
                            s1.cell(i, jj)
                        },
                    forall|i: int, jj: int|
                        s1.in_bounds(i, jj) && !(i == px as int && jj == py as int)
                            ==> (#[trigger] s1.cell(i, jj)).count() <= 8,
                    self.total_mines() == placed as int + 1,
                decreases neighbors@.len() - ni,
            {
                let pair = neighbors[ni];
                let nx = pair.0;
                let ny = pair.1;
                proof {
                    if neighbors@.subrange(0, ni as int).contains(pair) {
                        let q = choose|q: int|
                            0 <= q < ni as int && neighbors@.subrange(0, ni as int)[q] == pair;
                        assert(neighbors@[q] == neighbors@[ni as int]);
                        assert(false);
                    }
                    assert(self.cell(nx as int, ny as int) == s1.cell(nx as int, ny as int));
                    assert(adjacent(px as int, py as int, nx as int, ny as int));
                    assert(s1.cell(nx as int, ny as int).count() <= 8);
                }
                let mut t = self.board[nx][ny];
                t.mark_neighbor(true);
                let ghost prev = *self;
                self.set_cell(nx, ny, t);
                proof {
                    Board::lemma_count_cells_update(
                        prev,
                        *self,
                        CellTest::IsMine,
                        nx as int,
                        ny as int,
                    );
                    assert(neighbors@.subrange(0, ni as int + 1) =~= neighbors@.subrange(
                        0,
                        ni as int,
                    ).push(pair));
                    assert forall|i: int, jj: int|
                        s1.in_bounds(i, jj) implies #[trigger] self.cell(i, jj)
                        == if neighbors@.subrange(0, ni as int + 1).contains(
                        (i as usize, jj as usize),
                    ) {
                        s1.cell(i, jj).marked(true)
                    } else {
                        s1.cell(i, jj)
                    } by {
                        lemma_contains_push(
                            neighbors@.subrange(0, ni as int),
                            pair,
                            (i as usize, jj as usize),
                        );
                        if i == nx as int && jj == ny as int {
                            assert(self.cell(i, jj) == t);
                        } else {
                            assert(self.cell(i, jj) == prev.cell(i, jj));
                            assert((i as usize, jj as usize) != pair);
                        }
                    }
                }
                ni = ni + 1;
            }

            proof {
                assert(neighbors@.subrange(0, neighbors@.len() as int) =~= neighbors@);

                // the freshly placed mine is not its own neighbor, so the
                // marking pass left it alone
                if neighbors@.contains((px, py)) {
                    let q = choose|q: int|
                        0 <= q < neighbors@.len() && neighbors@[q] == (px, py);
                    assert(adjacent(px as int, py as int, px as int, py as int));
                    assert(false);
                }
                assert(self.cell(px as int, py as int) == s1.cell(px as int, py as int));
                assert(self.cell(px as int, py as int).is_mine());

                // marking never makes or unmakes a mine, nor uncovers a cell
                assert forall|i: int, jj: int| s1.in_bounds(i, jj) implies {
                    &&& (#[trigger] self.cell(i, jj)).is_mine() == s1.cell(i, jj).is_mine()
                    &&& self.cell(i, jj).state == s1.cell(i, jj).state
                } by {}

                assert forall|i: int, jj: int|
                    before.in_bounds(i, jj) && !(i == px as int && jj == py as int)
                    implies (#[trigger] self.cell(i, jj)).is_mine() == before.cell(
                    i,
                    jj,
                ).is_mine() by {}

                lemma_mines_around_after_mine(before, *self, px as int, py as int);

                // a cell was marked exactly when it lies around the mine
                assert forall|i: int, jj: int|
                    s1.in_bounds(i, jj) implies #[trigger] self.cell(i, jj) == if adjacent(
                    px as int,
                    py as int,
                    i,
                    jj,
                ) {
                    s1.cell(i, jj).marked(true)
                } else {
                    s1.cell(i, jj)
                } by {
                    if adjacent(px as int, py as int, i, jj) {
                        assert(neighbors@.contains((i as usize, jj as usize)));
                    } else {
                        if neighbors@.contains((i as usize, jj as usize)) {
                            let q = choose|q: int|
                                0 <= q < neighbors@.len() && neighbors@[q] == (
                                i as usize,
                                jj as usize,
                                );
                            assert(adjacent(px as int, py as int, i, jj));
                            assert(false);
                        }
                    }
                }

                // counts stay exact around the new mine
                assert forall|i: int, jj: int|
                    self.in_bounds(i, jj) && !(#[trigger] self.cell(i, jj)).is_mine()
                    implies self.cell(i, jj).count() == self.mines_around(i, jj) by {
                    assert(!(i == px as int && jj == py as int));
                    assert(before.cell(i, jj) == s1.cell(i, jj));
                    assert(!before.cell(i, jj).is_mine());
                    if adjacent(px as int, py as int, i, jj) {
                        assert(self.cell(i, jj) == s1.cell(i, jj).marked(true));
                    } else {
                        assert(self.cell(i, jj) == s1.cell(i, jj));
                    }
                }

                // the mine set is now exactly the first placed + 1 slots
                assert forall|i: int, jj: int|
                    self.in_bounds(i, jj) implies ((#[trigger] self.cell(i, jj)).is_mine()
                    <==> exists|q: int|
                        0 <= q < placed as int + 1 && (#[trigger] positions@[q]) == i * (
                        h as int) + jj) by {
                    assert forall|q: int| 0 <= q < placed as int
                        implies (#[trigger] positions@[q]) == positions0[q] by {}
                    if i == px as int && jj == py as int {
                        assert(positions@[placed as int] == b as int);
                        assert(positions@[placed as int] == i * (h as int) + jj);
                    } else {
                        if i * (h as int) + jj == b as int {
                            lemma_flatten_injective(h as int, i, jj, px as int, py as int);
                            assert(false);
                        }
                        if self.cell(i, jj).is_mine() {
                            let q = choose|q: int|
                                0 <= q < placed as int && (#[trigger] positions0[q]) == i * (
                                h as int) + jj;
                            assert(positions@[q] == i * (h as int) + jj);
                        }
                        if exists|q: int|
                            0 <= q < placed as int + 1 && (#[trigger] positions@[q]) == i * (
                            h as int) + jj {
                            let q = choose|q: int|
                                0 <= q < placed as int + 1 && (#[trigger] positions@[q]) == i
                                    * (h as int) + jj;
                            assert(q != placed as int);
                            assert(positions0[q] == i * (h as int) + jj);
                        }
                    }
                }
            }

            placed = placed + 1;
        }
    }
}

} // verus!
