//! The map: a fixed square grid of tiles plus the transient per-turn
//! visibility set, with the field-of-view computation that fills it.

use vstd::prelude::*;
use vstd::arithmetic::div_mod::{lemma_fundamental_div_mod_converse, lemma_div_is_ordered};
use crate::grid::{grid_cells, grid_rows, grid_cols, grid_dom_exact, grid_filled, grid_get, grid_set};
use crate::pos::Pos;
use crate::rng::Rng;
use crate::tile::Tile;

verus! {

/// Squared Euclidean distance between two positions.
pub open spec fn dist2(a: Pos, b: Pos) -> int {
    (a.x - b.x) * (a.x - b.x) + (a.y - b.y) * (a.y - b.y)
}

/// The squared sight radius; a radius of zero or less reaches no further
/// than the viewer's own tile.
pub open spec fn radius_sq(r: int) -> int {
    if r <= 0 {
        0
    } else {
        r * r
    }
}

/// Chebyshev distance: the number of sampling steps along the straight line
/// between two positions.
pub open spec fn cheb(a: Pos, b: Pos) -> int {
    let dx = if a.x <= b.x {
        b.x - a.x
    } else {
        a.x - b.x
    };
    let dy = if a.y <= b.y {
        b.y - a.y
    } else {
        a.y - b.y
    };
    if dx >= dy {
        dx
    } else {
        dy
    }
}

/// The nearest integer to the exact coordinate `ax + (t/n)·(bx − ax)`, with
/// halves rounded up. Written over shifted non-negative numerators so the
/// executable code can mirror it with unsigned division.
pub open spec fn round_coord(ax: int, bx: int, t: int, n: int) -> int {
    (2 * (ax * n + t * (bx - ax) + 1024 * n) + n) / (2 * n) - 1024
}

/// The `t`-th sampled cell of the straight line from `a` to `b`, for
/// `0 <= t <= cheb(a, b)`: the rounding of the exact point `a + (t/n)·(b − a)`.
pub open spec fn sample(a: Pos, b: Pos, t: int) -> Pos {
    let n = cheb(a, b);
    Pos {
        x: round_coord(a.x as int, b.x as int, t, n) as i32,
        y: round_coord(a.y as int, b.y as int, t, n) as i32,
    }
}

/// The generator state after `k` scatter steps (two draws each) from `s`.
pub open spec fn scatter_state(s: u64, k: int) -> u64
    decreases k,
{
    if k <= 0 {
        s
    } else {
        Rng::spec_step(Rng::spec_step(scatter_state(s, k - 1)))
    }
}

/// Whether the wall scatter of `count` steps from generator state `s` over
/// a `size`-sided map ever walls the cell `p`: step `k` draws an interior
/// coordinate pair and walls it unless it would touch the spawn region.
pub open spec fn scattered(size: int, s: u64, count: int, p: Pos) -> bool
    decreases count,
{
    if count <= 0 {
        false
    } else {
        scattered(size, s, count - 1, p) || ({
            let sk = scatter_state(s, count - 1);
            let wx = Rng::spec_range(sk, 1, size - 2);
            let wy = Rng::spec_range(Rng::spec_step(sk), 1, size - 2);
            &&& !(wx <= 2 && wy <= 2)
            &&& p.x == wx
            &&& p.y == wy
        })
    }
}

/// A square grid of tiles and the visibility set computed for the current
/// turn.
pub struct GameMap {
    grid: array2d::Array2D<Tile>,
    visible: Vec<bool>,
    size: i32,
}

impl GameMap {
    /// The side length of the square grid.
    pub closed spec fn spec_size(self) -> int {
        self.size as int
    }

    /// Whether a position lies on the grid.
    pub open spec fn in_bounds(self, p: Pos) -> bool {
        0 <= p.x < self.spec_size() && 0 <= p.y < self.spec_size()
    }

    /// Structural well-formedness: the grid is square of the stated size and
    /// the visibility set covers it.
    pub closed spec fn wf(self) -> bool {
        &&& 3 <= self.size <= 256
        &&& grid_rows(self.grid) == self.size
        &&& grid_cols(self.grid) == self.size
        &&& grid_dom_exact(self.grid, self.size as int, self.size as int)
        &&& self.visible@.len() == self.size * self.size
    }

    /// The tile at `p`; any out-of-bounds position reads as a wall.
    pub closed spec fn tile_at(self, p: Pos) -> Tile {
        if self.in_bounds(p) {
            grid_cells(self.grid)[(p.x as int, p.y as int)]
        } else {
            Tile::spec_wall()
        }
    }

    /// Whether `p` blocks movement; solid everywhere off the grid.
    pub open spec fn solid_at(self, p: Pos) -> bool {
        self.tile_at(p).solid
    }

    /// Whether `p` blocks sight; opaque everywhere off the grid.
    pub open spec fn opaque_at(self, p: Pos) -> bool {
        self.tile_at(p).opaque
    }

    /// Whether `p` has ever been seen; never true off the grid.
    pub open spec fn explored_at(self, p: Pos) -> bool {
        self.in_bounds(p) && self.tile_at(p).explored
    }

    /// Whether `p` is in the visibility set of the current turn; never true
    /// off the grid.
    pub closed spec fn visible_at(self, p: Pos) -> bool {
        self.in_bounds(p) && self.visible@[p.x * self.spec_size() + p.y]
    }

    /// The visibility set as its raw row-major sequence.
    pub closed spec fn vis_seq(self) -> Seq<bool> {
        self.visible@
    }

    /// Only on-grid positions are ever visible.
    pub proof fn lemma_visible_in_bounds(self, p: Pos)
        ensures
            self.visible_at(p) ==> self.in_bounds(p),
    {
    }

    /// A well-formed map's side length is small.
    pub proof fn lemma_wf_bounds(self)
        requires
            self.wf(),
        ensures
            3 <= self.spec_size() <= 256,
    {
    }

    /// Off the grid everything is solid and opaque, so a non-solid or
    /// non-opaque cell is on the grid.
    pub proof fn lemma_oob_solid(self, p: Pos)
        ensures
            !self.in_bounds(p) ==> self.solid_at(p) && self.opaque_at(p),
    {
    }

    /// The straight line from `a` to `b` meets no opaque tile strictly
    /// between the two endpoints.
    pub open spec fn los_clear(self, a: Pos, b: Pos) -> bool {
        forall|t: int| 1 <= t < cheb(a, b) ==> !self.opaque_at(#[trigger] sample(a, b, t))
    }

    /// The field-of-view predicate: `p` is on the grid, within the sight
    /// radius of `viewer` (boundary included), and no opaque tile stands
    /// strictly between them.
    pub open spec fn spec_visible(self, viewer: Pos, radius: int, p: Pos) -> bool {
        &&& self.in_bounds(p)
        &&& dist2(viewer, p) <= radius_sq(radius)
        &&& self.los_clear(viewer, p)
    }

    /// Every intermediate sampled point of the straight line from `a` to `b`
    /// lies in the visibility set of the current turn.
    pub open spec fn spec_los_visible(self, a: Pos, b: Pos) -> bool {
        forall|t: int| 1 <= t < cheb(a, b) ==> self.visible_at(#[trigger] sample(a, b, t))
    }

    /// An open field of the given side length, bordered by walls, with
    /// nothing yet visible or explored; `None` when the size is not
    /// representable.
    pub fn open_bordered(size: i32) -> (m: Option<GameMap>)
        ensures
            (3 <= size <= 256) <==> m is Some,
            m matches Some(m) ==> {
                &&& m.wf()
                &&& m.spec_size() == size
                &&& forall|p: Pos|
                    m.in_bounds(p) ==> #[trigger] m.tile_at(p) == (if p.x == 0 || p.y == 0 || p.x
                        == size - 1 || p.y == size - 1 {
                        Tile::spec_wall()
                    } else {
                        Tile::spec_empty()
                    })
                &&& forall|p: Pos| !(#[trigger] m.visible_at(p))
            },
    {
        if size < 3 || size > 256 {
            return None;
        }
        let s = size as usize;
        assert(s * s <= 65536) by (nonlinear_arith)
            requires
                s <= 256,
        ;
        let total = s * s;
        let grid = grid_filled(Tile::empty(), s, s);
        let mut m = GameMap { grid, visible: make_false_vec(total), size };
        // raise the border walls
        let mut x: i32 = 0;
        while x < size
            invariant
                0 <= x <= size,
                3 <= size <= 256,
                m.size == size,
                m.wf(),
                forall|p: Pos|
                    m.in_bounds(p) ==> #[trigger] m.tile_at(p) == (if ((p.y == 0 || p.y == size - 1)
                        && p.x < x) || ((p.x == 0 || p.x == size - 1) && p.y < x) {
                        Tile::spec_wall()
                    } else {
                        Tile::spec_empty()
                    }),
                m.visible@.len() == size * size,
                forall|i: int| 0 <= i < m.visible@.len() ==> !(#[trigger] m.visible@[i]),
            decreases size - x,
        {
            m.put_tile(Pos { x, y: 0 }, Tile::wall());
            m.put_tile(Pos { x, y: size - 1 }, Tile::wall());
            m.put_tile(Pos { x: 0, y: x }, Tile::wall());
            m.put_tile(Pos { x: size - 1, y: x }, Tile::wall());
            x = x + 1;
        }
        proof {
            assert forall|p: Pos| !m.visible_at(p) by {
                if m.in_bounds(p) {
                    lemma_rowmajor_bounds(p.x as int, p.y as int, m.spec_size());
                }
            }
        }
        Some(m)
    }

    /// Overwrites the tile at `p` (a construction-time operation); reports
    /// whether `p` was on the grid, off-grid writes change nothing.
    pub fn put_tile(&mut self, p: Pos, tile: Tile) -> (ok: bool)
        requires
            old(self).wf(),
        ensures
            final(self).wf(),
            final(self).spec_size() == old(self).spec_size(),
            ok == old(self).in_bounds(p),
            ok ==> forall|q: Pos|
                #[trigger] final(self).tile_at(q) == (if q == p {
                    tile
                } else {
                    old(self).tile_at(q)
                }),
            !ok ==> forall|q: Pos| #[trigger] final(self).tile_at(q) == old(self).tile_at(q),
            forall|q: Pos| #[trigger] final(self).visible_at(q) == old(self).visible_at(q),
            final(self).vis_seq() == old(self).vis_seq(),
    {
        if p.x < 0 || p.y < 0 || p.x >= self.size || p.y >= self.size {
            return false;
        }
        let ok = grid_set(&mut self.grid, p.x as usize, p.y as usize, tile);
        proof {
            assert(grid_cells(self.grid) == grid_cells(old(self).grid).insert(
                (p.x as int, p.y as int),
                tile,
            ));
            assert forall|q: Pos| #[trigger] self.tile_at(q) == (if q == p {
                tile
            } else {
                old(self).tile_at(q)
            }) by {
                if self.in_bounds(q) {
                    if q.x == p.x && q.y == p.y {
                        assert(q == p);
                    }
                }
            }
        }
        true
    }

    /// Raises a wall at `p`; reports whether `p` was on the grid.
    pub fn set_wall(&mut self, p: Pos) -> (ok: bool)
        requires
            old(self).wf(),
        ensures
            final(self).wf(),
            final(self).spec_size() == old(self).spec_size(),
            ok == old(self).in_bounds(p),
            ok ==> forall|q: Pos|
                #[trigger] final(self).tile_at(q) == (if q == p {
                    Tile::spec_wall()
                } else {
                    old(self).tile_at(q)
                }),
            !ok ==> forall|q: Pos| #[trigger] final(self).tile_at(q) == old(self).tile_at(q),
            forall|q: Pos| #[trigger] final(self).visible_at(q) == old(self).visible_at(q),
    {
        self.put_tile(p, Tile::wall())
    }

    /// The tile at `pos`; out-of-bounds positions read as walls.
    pub fn get_tile(&self, pos: Pos) -> (t: Tile)
        requires
            self.wf(),
        ensures
            t == self.tile_at(pos),
    {
        if pos.x < 0 || pos.y < 0 || pos.x >= self.size || pos.y >= self.size {
            return Tile::wall();
        }
        match grid_get(&self.grid, pos.x as usize, pos.y as usize) {
            Some(t) => t,
            None => {
                proof {
                    assert(false);
                }
                Tile::wall()
            },
        }
    }

    /// Whether the tile at `pos` blocks movement. The grid itself is never
    /// read outside its bounds: any out-of-bounds position resolves to solid.
    pub fn is_solid(&self, pos: Pos) -> (b: bool)
        requires
            self.wf(),
        ensures
            b == self.solid_at(pos),
            !self.in_bounds(pos) ==> b,
    {
        self.get_tile(pos).solid
    }

    /// Whether the tile at `pos` blocks sight. The grid itself is never read
    /// outside its bounds: any out-of-bounds position resolves to opaque.
    pub fn is_opaque(&self, pos: Pos) -> (b: bool)
        requires
            self.wf(),
        ensures
            b == self.opaque_at(pos),
            !self.in_bounds(pos) ==> b,
    {
        self.get_tile(pos).opaque
    }

    /// Whether `pos` is in the visibility set of the current turn;
    /// out-of-bounds positions are never visible.
    pub fn is_visible(&self, pos: Pos) -> (b: bool)
        requires
            self.wf(),
        ensures
            b == self.visible_at(pos),
            !self.in_bounds(pos) ==> !b,
    {
        if pos.x < 0 || pos.y < 0 || pos.x >= self.size || pos.y >= self.size {
            return false;
        }
        proof {
            lemma_rowmajor_bounds(pos.x as int, pos.y as int, self.spec_size());
        }
        self.visible[(pos.x * self.size + pos.y) as usize]
    }

    /// Whether `pos` has ever been seen.
    pub fn is_explored(&self, pos: Pos) -> (b: bool)
        requires
            self.wf(),
        ensures
            b == self.explored_at(pos),
    {
        if pos.x < 0 || pos.y < 0 || pos.x >= self.size || pos.y >= self.size {
            return false;
        }
        self.get_tile(pos).explored
    }

    /// The side length of the map.
    pub fn size(&self) -> (s: i32)
        ensures
            s == self.spec_size(),
    {
        self.size
    }

    /// Whether `p` lies in the map's spawn region: the small square of cells
    /// nearest the origin corner, kept clear by `generate`.
    pub open spec fn in_spawn_region(self, p: Pos) -> bool {
        1 <= p.x <= 2 && 1 <= p.y <= 2 && p.x <= self.spec_size() - 2 && p.y <= self.spec_size()
            - 2
    }

    /// One step of the wall scatter: a uniform draw over the interior,
    /// walled unless it would touch the spawn region.
    fn scatter_one(&mut self, rng: &mut Rng, size: i32)
        requires
            old(self).wf(),
            3 <= size <= 256,
            old(self).spec_size() == size,
            forall|p: Pos|
                old(self).in_bounds(p) && (p.x == 0 || p.y == 0 || p.x == size - 1 || p.y == size
                    - 1) ==> (#[trigger] old(self).tile_at(p)) == Tile::spec_wall(),
            forall|p: Pos|
                old(self).in_spawn_region(p) ==> (#[trigger] old(self).tile_at(p))
                    == Tile::spec_empty(),
            forall|p: Pos| !(#[trigger] old(self).visible_at(p)),
        ensures
            final(self).wf(),
            final(self).spec_size() == size,
            forall|p: Pos|
                final(self).in_bounds(p) && (p.x == 0 || p.y == 0 || p.x == size - 1 || p.y == size
                    - 1) ==> (#[trigger] final(self).tile_at(p)) == Tile::spec_wall(),
            forall|p: Pos|
                final(self).in_spawn_region(p) ==> (#[trigger] final(self).tile_at(p))
                    == Tile::spec_empty(),
            forall|p: Pos| !(#[trigger] final(self).visible_at(p)),
            final(rng)@ == Rng::spec_step(Rng::spec_step(old(rng)@)),
            ({
                let wx = Rng::spec_range(old(rng)@, 1, size - 2);
                let wy = Rng::spec_range(Rng::spec_step(old(rng)@), 1, size - 2);
                forall|q: Pos|
                    (#[trigger] final(self).tile_at(q)) == (if q.x == wx && q.y == wy && !(wx <= 2
                        && wy <= 2) {
                        Tile::spec_wall()
                    } else {
                        old(self).tile_at(q)
                    })
            }),
    {
        let wx = roll_interior(rng, size);
        let wy = roll_interior(rng, size);
        let p = Pos { x: wx, y: wy };
        if !(wx <= 2 && wy <= 2) {
            self.set_wall(p);
            proof {
                assert forall|q: Pos|
                    self.in_bounds(q) && (q.x == 0 || q.y == 0 || q.x == size - 1 || q.y == size
                        - 1) implies (#[trigger] self.tile_at(q)) == Tile::spec_wall() by {
                    assert(q != p);
                    assert(self.tile_at(q) == old(self).tile_at(q));
                }
                assert forall|q: Pos|
                    self.in_spawn_region(q) implies (#[trigger] self.tile_at(q))
                    == Tile::spec_empty() by {
                    assert(q != p);
                    assert(self.tile_at(q) == old(self).tile_at(q));
                }
                assert forall|q: Pos| !(#[trigger] self.visible_at(q)) by {
                    assert(self.visible_at(q) == old(self).visible_at(q));
                }
                assert forall|q: Pos|
                    (#[trigger] self.tile_at(q)) == (if q == p {
                        Tile::spec_wall()
                    } else {
                        old(self).tile_at(q)
                    }) by {}
            }
        }
    }

    /// Procedural generation: an open bordered field with a uniform wall
    /// scatter over the interior, leaving the spawn region clear so it is
    /// walkable and connected; `None` when the size is not representable.
    /// The resulting tile layout is a function of the generator's starting
    /// state alone: a cell is a wall exactly when it is on the border or
    /// hit by the scatter, so the same seed always rebuilds the same map.
    pub fn generate(size: i32, rng: &mut Rng) -> (m: Option<GameMap>)
        ensures
            (3 <= size <= 256) <==> m is Some,
            m matches Some(m) ==> {
                &&& m.wf()
                &&& m.spec_size() == size
                &&& forall|p: Pos|
                    m.in_bounds(p) && (p.x == 0 || p.y == 0 || p.x == size - 1 || p.y == size - 1)
                        ==> (#[trigger] m.tile_at(p)) == Tile::spec_wall()
                &&& forall|p: Pos|
                    m.in_spawn_region(p) ==> (#[trigger] m.tile_at(p)) == Tile::spec_empty()
                &&& forall|p: Pos| !(#[trigger] m.visible_at(p))
                &&& final(rng)@ == scatter_state(
                    old(rng)@,
                    (size as int) * (size as int) / 5,
                )
                &&& forall|p: Pos|
                    m.in_bounds(p) ==> (#[trigger] m.tile_at(p)) == (if p.x == 0 || p.y == 0 || p.x
                        == size - 1 || p.y == size - 1 || scattered(
                        size as int,
                        old(rng)@,
                        (size as int) * (size as int) / 5,
                        p,
                    ) {
                        Tile::spec_wall()
                    } else {
                        Tile::spec_empty()
                    })
            },
    {
        let ghost s0 = rng@;
        let mut m = match GameMap::open_bordered(size) {
            None => { return None; },
            Some(m) => m,
        };
        assert((size as int) * (size as int) <= 65536) by (nonlinear_arith)
            requires
                3 <= size <= 256,
        ;
        let count = size * size / 5;
        assert(count == (size as int) * (size as int) / 5);
        let mut k: i32 = 0;
        while k < count
            invariant
                m.wf(),
                3 <= size <= 256,
                m.spec_size() == size,
                0 <= k <= count,
                count == (size as int) * (size as int) / 5,
                rng@ == scatter_state(s0, k as int),
                forall|p: Pos|
                    m.in_bounds(p) && (p.x == 0 || p.y == 0 || p.x == size - 1 || p.y == size - 1)
                        ==> (#[trigger] m.tile_at(p)) == Tile::spec_wall(),
                forall|p: Pos|
                    m.in_spawn_region(p) ==> (#[trigger] m.tile_at(p)) == Tile::spec_empty(),
                forall|p: Pos| !(#[trigger] m.visible_at(p)),
                forall|p: Pos|
                    m.in_bounds(p) ==> (#[trigger] m.tile_at(p)) == (if p.x == 0 || p.y == 0 || p.x
                        == size - 1 || p.y == size - 1 || scattered(size as int, s0, k as int, p) {
                        Tile::spec_wall()
                    } else {
                        Tile::spec_empty()
                    }),
            decreases count - k,
        {
            let ghost mprev = m;
            let ghost sk = scatter_state(s0, k as int);
            m.scatter_one(rng, size);
            proof {
                assert(rng@ == scatter_state(s0, k as int + 1));
                let wx = Rng::spec_range(sk, 1, size as int - 2);
                let wy = Rng::spec_range(Rng::spec_step(sk), 1, size as int - 2);
                assert forall|p: Pos|
                    m.in_bounds(p) implies (#[trigger] m.tile_at(p)) == (if p.x == 0 || p.y == 0
                    || p.x == size - 1 || p.y == size - 1 || scattered(
                    size as int,
                    s0,
                    k as int + 1,
                    p,
                ) {
                    Tile::spec_wall()
                } else {
                    Tile::spec_empty()
                }) by {
                    assert(scattered(size as int, s0, k as int + 1, p) == (scattered(
                        size as int,
                        s0,
                        k as int,
                        p,
                    ) || (!(wx <= 2 && wy <= 2) && p.x == wx && p.y == wy)));
                    assert(m.tile_at(p) == (if p.x == wx && p.y == wy && !(wx <= 2 && wy <= 2) {
                        Tile::spec_wall()
                    } else {
                        mprev.tile_at(p)
                    }));
                }
            }
            k = k + 1;
        }
        Some(m)
    }

    /// Whether one cell is in the viewer's field of view.
    fn cell_visible(&self, viewer: Pos, radius: i32, p: Pos) -> (b: bool)
        requires
            self.wf(),
            self.in_bounds(viewer),
        ensures
            b == self.spec_visible(viewer, radius as int, p),
    {
        if p.x < 0 || p.y < 0 || p.x >= self.size || p.y >= self.size {
            return false;
        }
        let dx = (viewer.x as i64) - (p.x as i64);
        let dy = (viewer.y as i64) - (p.y as i64);
        proof {
            assert(0 <= dx * dx <= 255 * 255 && 0 <= dy * dy <= 255 * 255) by (nonlinear_arith)
                requires
                    -255 <= dx <= 255,
                    -255 <= dy <= 255,
            ;
        }
        let d2 = dx * dx + dy * dy;
        let r2: i64 = if radius <= 0 {
            0
        } else {
            let rr = radius as i64;
            proof {
                assert(0 <= rr * rr < 0x4000000000000000) by (nonlinear_arith)
                    requires
                        0 < rr < 0x80000000,
                ;
            }
            rr * rr
        };
        assert(d2 == dist2(viewer, p) && r2 == radius_sq(radius as int)) by (nonlinear_arith)
            requires
                dx == viewer.x - p.x,
                dy == viewer.y - p.y,
                d2 == dx * dx + dy * dy,
                (radius <= 0 ==> r2 == 0) && (radius > 0 ==> r2 == (radius as int) * (radius as int)),
        ;
        if d2 > r2 {
            return false;
        }
        let n = cheb_exec(viewer, p);
        let mut t: i32 = 1;
        while t < n
            invariant
                self.wf(),
                self.in_bounds(viewer),
                self.in_bounds(p),
                0 <= viewer.x <= 255,
                0 <= viewer.y <= 255,
                0 <= p.x <= 255,
                0 <= p.y <= 255,
                n == cheb(viewer, p),
                1 <= t <= n || (n == 0 && t == 1),
                forall|s: int| 1 <= s < t ==> !self.opaque_at(#[trigger] sample(viewer, p, s)),
            decreases n - t,
        {
            let sp = sample_exec(viewer, p, t, n);
            if self.is_opaque(sp) {
                proof {
                    assert(self.opaque_at(sample(viewer, p, t as int)));
                    assert(!self.los_clear(viewer, p));
                }
                return false;
            }
            t = t + 1;
        }
        assert(self.los_clear(viewer, p));
        true
    }

    /// Sets the `explored` mark on the tile at `p`, touching nothing else.
    fn mark_explored(&mut self, p: Pos)
        requires
            old(self).wf(),
            old(self).in_bounds(p),
        ensures
            final(self).wf(),
            final(self).spec_size() == old(self).spec_size(),
            forall|q: Pos|
                #[trigger] final(self).tile_at(q) == (if q == p {
                    Tile { explored: true, ..old(self).tile_at(p) }
                } else {
                    old(self).tile_at(q)
                }),
            final(self).vis_seq() == old(self).vis_seq(),
    {
        let t = self.get_tile(p);
        let marked = Tile { explored: true, ..t };
        self.put_tile(p, marked);
    }

    /// Recomputes the visibility set as the field of view of `viewer` with
    /// the given sight radius, and marks every visible tile explored. The
    /// static tile layer is untouched, and `explored` marks are only ever
    /// added, never removed.
    pub fn compute_visibility(&mut self, viewer: Pos, radius: i32)
        requires
            old(self).wf(),
            old(self).in_bounds(viewer),
        ensures
            final(self).wf(),
            final(self).spec_size() == old(self).spec_size(),
            forall|p: Pos|
                #[trigger] final(self).visible_at(p) == old(self).spec_visible(
                    viewer,
                    radius as int,
                    p,
                ),
            forall|p: Pos|
                #[trigger] final(self).explored_at(p) == (old(self).explored_at(p) || old(
                    self,
                ).spec_visible(viewer, radius as int, p)),
            forall|p: Pos|
                tile_same_static(#[trigger] final(self).tile_at(p), old(self).tile_at(p)),
    {
        let ghost m0 = *self;
        let sz = self.size;
        let mut x: i32 = 0;
        while x < sz
            invariant
                self.wf(),
                sz == self.spec_size(),
                m0.wf(),
                self.spec_size() == m0.spec_size(),
                m0.in_bounds(viewer),
                0 <= x <= sz,
                forall|p: Pos| tile_same_static(#[trigger] self.tile_at(p), m0.tile_at(p)),
                forall|p: Pos|
                    #[trigger] self.explored_at(p) == (m0.explored_at(p) || (p.x < x
                        && m0.spec_visible(viewer, radius as int, p))),
                forall|p: Pos|
                    self.in_bounds(p) && p.x < x ==> #[trigger] self.visible_at(p)
                        == m0.spec_visible(viewer, radius as int, p),
            decreases sz - x,
        {
            let mut y: i32 = 0;
            while y < sz
                invariant
                    self.wf(),
                    sz == self.spec_size(),
                    m0.wf(),
                    self.spec_size() == m0.spec_size(),
                    m0.in_bounds(viewer),
                    0 <= x < sz,
                    0 <= y <= sz,
                    forall|p: Pos| tile_same_static(#[trigger] self.tile_at(p), m0.tile_at(p)),
                    forall|p: Pos|
                        #[trigger] self.explored_at(p) == (m0.explored_at(p) || ((p.x < x || (p.x
                            == x && p.y < y)) && m0.spec_visible(viewer, radius as int, p))),
                    forall|p: Pos|
                        self.in_bounds(p) && (p.x < x || (p.x == x && p.y < y))
                            ==> #[trigger] self.visible_at(p) == m0.spec_visible(
                            viewer,
                            radius as int,
                            p,
                        ),
                decreases sz - y,
            {
                let p = Pos { x, y };
                let ghost s0 = *self;
                proof {
                    lemma_fov_depends_on_opacity(s0, m0, viewer, radius as int);
                    lemma_rowmajor_bounds(x as int, y as int, sz as int);
                }
                let vis = self.cell_visible(viewer, radius, p);
                assert(vis == m0.spec_visible(viewer, radius as int, p));
                let idx = (x * sz + y) as usize;
                self.visible[idx] = vis;
                proof {
                    assert(self.visible@ == s0.visible@.update(idx as int, vis));
                    assert forall|q: Pos| #[trigger] self.visible_at(q) == (if q == p {
                        vis
                    } else {
                        s0.visible_at(q)
                    }) by {
                        if self.in_bounds(q) {
                            lemma_rowmajor_bounds(q.x as int, q.y as int, sz as int);
                            if q.x * (sz as int) + q.y == idx {
                                lemma_rowmajor_injective(q, p, sz as int);
                            } else {
                                assert(q != p);
                            }
                        }
                    }
                    assert(forall|q: Pos| #[trigger] self.tile_at(q) == s0.tile_at(q));
                }
                let ghost s1 = *self;
                if vis {
                    self.mark_explored(p);
                }
                proof {
                    // the visibility set is as after the write, and tiles
                    // changed at most in the `explored` mark of `p`
                    assert(self.vis_seq() == s1.vis_seq());
                    assert forall|q: Pos| #[trigger] self.visible_at(q) == s1.visible_at(q) by {}
                    assert forall|q: Pos|
                        q != p ==> #[trigger] self.tile_at(q) == s0.tile_at(q) by {}
                    assert forall|q: Pos| tile_same_static(
                        #[trigger] self.tile_at(q),
                        m0.tile_at(q),
                    ) by {
                        assert(tile_same_static(s0.tile_at(q), m0.tile_at(q)));
                    }
                    assert forall|q: Pos|
                        #[trigger] self.explored_at(q) == (m0.explored_at(q) || ((q.x < x || (q.x
                            == x && q.y < y + 1)) && m0.spec_visible(viewer, radius as int, q)))
                        by {
                        if q == p {
                            if vis {
                                assert(self.tile_at(p).explored);
                            } else {
                                assert(self.explored_at(q) == s0.explored_at(q));
                            }
                        } else {
                            assert(self.explored_at(q) == s0.explored_at(q));
                        }
                    }
                    assert forall|q: Pos|
                        self.in_bounds(q) && (q.x < x || (q.x == x && q.y < y + 1))
                            implies #[trigger] self.visible_at(q) == m0.spec_visible(
                            viewer,
                            radius as int,
                            q,
                        ) by {
                        if q != p {
                            assert(self.visible_at(q) == s0.visible_at(q));
                        }
                    }
                }
                y = y + 1;
            }
            proof {
                assert forall|p: Pos|
                    #[trigger] self.explored_at(p) == (m0.explored_at(p) || (p.x < x + 1
                        && m0.spec_visible(viewer, radius as int, p))) by {
                    if m0.spec_visible(viewer, radius as int, p) {
                        assert(m0.in_bounds(p));
                    }
                }
                assert forall|p: Pos|
                    self.in_bounds(p) && p.x < x + 1 implies #[trigger] self.visible_at(p)
                    == m0.spec_visible(viewer, radius as int, p) by {}
            }
            x = x + 1;
        }
        proof {
            assert forall|p: Pos|
                #[trigger] self.visible_at(p) == m0.spec_visible(viewer, radius as int, p) by {
                if !self.in_bounds(p) {
                    assert(!self.visible_at(p));
                    assert(!m0.in_bounds(p));
                }
            }
            assert forall|p: Pos|
                #[trigger] self.explored_at(p) == (m0.explored_at(p) || m0.spec_visible(
                    viewer,
                    radius as int,
                    p,
                )) by {
                if m0.spec_visible(viewer, radius as int, p) {
                    assert(m0.in_bounds(p));
                }
            }
        }
    }

    /// Whether every intermediate sampled point of the straight line between
    /// `a` and `b` is currently visible. This is the perception check used
    /// by characters; it reads the visibility set of the current turn and is
    /// distinct from the radius-bounded field-of-view computation itself.
    pub fn los_visible(&self, a: Pos, b: Pos) -> (v: bool)
        requires
            self.wf(),
            self.in_bounds(a),
            self.in_bounds(b),
        ensures
            v == self.spec_los_visible(a, b),
    {
        let n = cheb_exec(a, b);
        let mut t: i32 = 1;
        while t < n
            invariant
                self.wf(),
                self.in_bounds(a),
                self.in_bounds(b),
                0 <= a.x <= 255,
                0 <= a.y <= 255,
                0 <= b.x <= 255,
                0 <= b.y <= 255,
                n == cheb(a, b),
                1 <= t <= n || (n == 0 && t == 1),
                forall|s: int| 1 <= s < t ==> self.visible_at(#[trigger] sample(a, b, s)),
            decreases n - t,
        {
            let sp = sample_exec(a, b, t, n);
            if !self.is_visible(sp) {
                proof {
                    assert(!self.visible_at(sample(a, b, t as int)));
                }
                return false;
            }
            t = t + 1;
        }
        true
    }
}

/// The static part of a tile — everything but the `explored` mark.
pub open spec fn tile_same_static(t1: Tile, t2: Tile) -> bool {
    &&& t1.solid == t2.solid
    &&& t1.opaque == t2.opaque
    &&& t1.glyph == t2.glyph
    &&& t1.color == t2.color
}

/// The rounded line coordinate lies between its endpoints.
pub proof fn lemma_round_coord_bounds(ax: int, bx: int, t: int, n: int)
    requires
        1 <= n,
        0 <= t <= n,
    ensures
        ax <= bx ==> ax <= round_coord(ax, bx, t, n) <= bx,
        bx <= ax ==> bx <= round_coord(ax, bx, t, n) <= ax,
{
    let lo = if ax <= bx {
        ax
    } else {
        bx
    };
    let hi = if ax <= bx {
        bx
    } else {
        ax
    };
    let num = ax * n + t * (bx - ax) + 1024 * n;
    assert((lo + 1024) * n <= num <= (hi + 1024) * n) by (nonlinear_arith)
        requires
            1 <= n,
            0 <= t <= n,
            lo <= ax <= hi,
            lo <= bx <= hi,
            num == ax * n + t * (bx - ax) + 1024 * n,
    ;
    let x = 2 * num + n;
    assert((2 * n) * (lo + 1024) <= x <= (2 * n) * (hi + 1024) + n) by (nonlinear_arith)
        requires
            1 <= n,
            (lo + 1024) * n <= num <= (hi + 1024) * n,
            x == 2 * num + n,
    ;
    lemma_fundamental_div_mod_converse((2 * n) * (lo + 1024), 2 * n, lo + 1024, 0);
    lemma_fundamental_div_mod_converse((2 * n) * (hi + 1024) + n, 2 * n, hi + 1024, n);
    lemma_div_is_ordered((2 * n) * (lo + 1024), x, 2 * n);
    lemma_div_is_ordered(x, (2 * n) * (hi + 1024) + n, 2 * n);
}

/// Reversing the endpoints of a line reverses its samples: step `t` from `a`
/// towards `b` lands on the same cell as step `n − t` from `b` towards `a`.
pub proof fn lemma_sample_symmetric(a: Pos, b: Pos, t: int)
    requires
        0 <= t <= cheb(a, b),
    ensures
        sample(a, b, t) == sample(b, a, cheb(a, b) - t),
{
    let n = cheb(a, b);
    assert(cheb(b, a) == n);
    assert(a.x * n + t * (b.x - a.x) == b.x * n + (n - t) * (a.x - b.x)) by (nonlinear_arith);
    assert(a.y * n + t * (b.y - a.y) == b.y * n + (n - t) * (a.y - b.y)) by (nonlinear_arith);
}

/// A clear line of sight is clear read from either end.
proof fn lemma_los_clear_one_way(m: GameMap, a: Pos, b: Pos)
    requires
        m.los_clear(a, b),
    ensures
        m.los_clear(b, a),
{
    let n = cheb(a, b);
    assert(cheb(b, a) == n);
    assert forall|t: int| 1 <= t < n implies !m.opaque_at(#[trigger] sample(b, a, t)) by {
        lemma_sample_symmetric(a, b, n - t);
        assert(sample(b, a, t) == sample(a, b, n - t));
    }
}

impl GameMap {
    /// Line-of-sight symmetry: between two on-grid positions, under one
    /// radius, each sees the other exactly when the other sees it.
    pub proof fn lemma_visibility_symmetric(self, a: Pos, b: Pos, radius: int)
        requires
            self.in_bounds(a),
            self.in_bounds(b),
        ensures
            self.spec_visible(a, radius, b) == self.spec_visible(b, radius, a),
    {
        assert(dist2(a, b) == dist2(b, a)) by (nonlinear_arith);
        if self.los_clear(a, b) {
            lemma_los_clear_one_way(self, a, b);
        }
        if self.los_clear(b, a) {
            lemma_los_clear_one_way(self, b, a);
        }
    }

    /// On an open map — no occluders anywhere on the grid — any position
    /// within another's radius is visible from it, and symmetrically.
    pub proof fn lemma_open_map_mutually_visible(self, a: Pos, b: Pos, radius: int)
        requires
            self.wf(),
            self.in_bounds(a),
            self.in_bounds(b),
            dist2(a, b) <= radius_sq(radius),
            forall|p: Pos| self.in_bounds(p) ==> !(#[trigger] self.opaque_at(p)),
        ensures
            self.spec_visible(a, radius, b),
            self.spec_visible(b, radius, a),
    {
        let n = cheb(a, b);
        assert forall|t: int| 1 <= t < n implies !self.opaque_at(#[trigger] sample(a, b, t)) by {
            lemma_round_coord_bounds(a.x as int, b.x as int, t, n);
            lemma_round_coord_bounds(a.y as int, b.y as int, t, n);
            assert(self.in_bounds(sample(a, b, t)));
        }
        assert(self.spec_visible(a, radius, b));
        self.lemma_visibility_symmetric(a, b, radius);
    }
}

/// The field of view depends only on the grid's size and opacity layer, not
/// on its `explored` marks or presentation data.
pub proof fn lemma_fov_depends_on_opacity(m1: GameMap, m2: GameMap, viewer: Pos, radius: int)
    requires
        m1.spec_size() == m2.spec_size(),
        forall|p: Pos| #[trigger] m1.opaque_at(p) == m2.opaque_at(p),
    ensures
        forall|p: Pos|
            #[trigger] m1.spec_visible(viewer, radius, p) == m2.spec_visible(viewer, radius, p),
{
    assert forall|p: Pos|
        #[trigger] m1.spec_visible(viewer, radius, p) == m2.spec_visible(viewer, radius, p) by {
        assert forall|t: int| 1 <= t < cheb(viewer, p) implies #[trigger] m1.opaque_at(
            sample(viewer, p, t),
        ) == m2.opaque_at(sample(viewer, p, t)) by {}
        if m1.los_clear(viewer, p) {
            assert(m2.los_clear(viewer, p));
        }
        if m2.los_clear(viewer, p) {
            assert(m1.los_clear(viewer, p));
        }
    }
}

/// Distinct on-grid positions occupy distinct row-major indices.
proof fn lemma_rowmajor_injective(p: Pos, q: Pos, size: int)
    requires
        0 <= p.x < size,
        0 <= p.y < size,
        0 <= q.x < size,
        0 <= q.y < size,
        p.x * size + p.y == q.x * size + q.y,
    ensures
        p == q,
{
    assert(p.x == q.x && p.y == q.y) by (nonlinear_arith)
        requires
            0 <= p.x < size,
            0 <= p.y < size,
            0 <= q.x < size,
            0 <= q.y < size,
            p.x * size + p.y == q.x * size + q.y,
    ;
}

/// Row-major cell indices stay within a `size`-by-`size` vector, which for
/// the sizes a map allows fits comfortably in the index types used.
proof fn lemma_rowmajor_bounds(x: int, y: int, size: int)
    requires
        0 <= x < size,
        0 <= y < size,
        size <= 256,
    ensures
        0 <= x * size,
        x * size + y < size * size,
        size * size <= 65536,
{
    assert(0 <= x * size && x * size + y < size * size && size * size <= 65536)
        by (nonlinear_arith)
        requires
            0 <= x < size,
            0 <= y < size,
            size <= 256,
    ;
}

/// Chebyshev distance, executably.
fn cheb_exec(a: Pos, b: Pos) -> (n: i32)
    requires
        0 <= a.x <= 255,
        0 <= a.y <= 255,
        0 <= b.x <= 255,
        0 <= b.y <= 255,
    ensures
        n == cheb(a, b),
        0 <= n <= 255,
{
    let dx = if a.x <= b.x {
        b.x - a.x
    } else {
        a.x - b.x
    };
    let dy = if a.y <= b.y {
        b.y - a.y
    } else {
        a.y - b.y
    };
    if dx >= dy {
        dx
    } else {
        dy
    }
}

/// One rounded coordinate of a line sample, mirroring `round_coord` with
/// unsigned division over a shifted non-negative numerator.
fn round_coord_exec(ax: i32, bx: i32, t: i32, n: i32) -> (r: i32)
    requires
        0 <= ax <= 255,
        0 <= bx <= 255,
        1 <= n <= 255,
        0 <= t <= n,
    ensures
        r == round_coord(ax as int, bx as int, t as int, n as int),
        0 <= r <= 255,
{
    let ax64 = ax as i64;
    let bx64 = bx as i64;
    let t64 = t as i64;
    let n64 = n as i64;
    proof {
        assert(-255 * n64 <= t64 * (bx64 - ax64) <= 255 * n64 && 0 <= ax64 * n64 <= 255 * n64)
            by (nonlinear_arith)
            requires
                0 <= ax64 <= 255,
                0 <= bx64 <= 255,
                1 <= n64 <= 255,
                0 <= t64 <= n64,
        ;
    }
    let num: i64 = ax64 * n64 + t64 * (bx64 - ax64) + 1024 * n64;
    assert(769 * n64 <= num <= 1534 * n64);
    let shifted: i64 = 2 * num + n64;
    let q: u64 = (shifted as u64) / ((2 * n64) as u64);
    proof {
        lemma_round_coord_bounds(ax as int, bx as int, t as int, n as int);
        assert(q == shifted as int / (2 * n64));
        assert(1024 <= q <= 1024 + 255);
    }
    (q as i32) - 1024
}

/// The `t`-th sampled cell of the line from `a` to `b`, executably.
fn sample_exec(a: Pos, b: Pos, t: i32, n: i32) -> (p: Pos)
    requires
        0 <= a.x <= 255,
        0 <= a.y <= 255,
        0 <= b.x <= 255,
        0 <= b.y <= 255,
        n == cheb(a, b),
        1 <= t <= n,
    ensures
        p == sample(a, b, t as int),
        0 <= p.x <= 255,
        0 <= p.y <= 255,
{
    let x = round_coord_exec(a.x, b.x, t, n);
    let y = round_coord_exec(a.y, b.y, t, n);
    Pos { x, y }
}

/// A uniform draw of an interior coordinate of a `size`-sided map.
fn roll_interior(rng: &mut Rng, size: i32) -> (c: i32)
    requires
        3 <= size,
    ensures
        1 <= c <= size - 2,
        c == Rng::spec_range(old(rng)@, 1, size - 2),
        final(rng)@ == Rng::spec_step(old(rng)@),
{
    rng.gen_range(1, size - 2)
}

/// A vector of `n` `false` entries.
fn make_false_vec(n: usize) -> (v: Vec<bool>)
    ensures
        v@.len() == n,
        forall|i: int| 0 <= i < n ==> !(#[trigger] v@[i]),
{
    let mut v: Vec<bool> = Vec::new();
    let mut i: usize = 0;
    while i < n
        invariant
            i <= n,
            v@.len() == i,
            forall|j: int| 0 <= j < i ==> !(#[trigger] v@[j]),
        decreases n - i,
    {
        v.push(false);
        i = i + 1;
    }
    v
}

} // verus!
