//! The sparse, chunked, logically infinite height field: world-space cell
//! reads and writes, bilinear sampling and modification, and the downhill
//! slope used by the erosion simulation.

use vstd::prelude::*;

verus! {

use crate::FRAC;
use crate::FRAC2;
use crate::UNIT;
use crate::chunk::{TerrainDataChunk, CHUNK_SIZE, CHUNK_SIZE_I, CHUNK_AREA};
use crate::fixed::{
    Pos, HEIGHT_LIMIT, DELTA_LIMIT, POS_LIMIT, CELL_LIMIT, floor_div, floor_mod, clamp_height,
    clamp_height_exec, lemma_mod_in_range, lemma_mul_bound, sqrt_floor, isqrt,
};

/// The full sparse terrain height store: a set of chunks with pairwise
/// distinct chunk coordinates. Cells not covered by any chunk read as zero.
pub struct TerrainData {
    pub chunks: Vec<TerrainDataChunk>,
}

/// The chunk column covering world cell column `x`.
pub open spec fn chunk_of(x: int) -> int {
    x / (CHUNK_SIZE_I as int)
}

/// The local offset of world cell column `x` inside its chunk, in `[0, CHUNK_SIZE)`.
pub open spec fn local_of(x: int) -> int {
    x % (CHUNK_SIZE_I as int)
}

impl TerrainData {
    /// Well-formed: every chunk well-formed, chunk coordinates pairwise distinct.
    pub open spec fn wf(self) -> bool {
        &&& forall|i: int| 0 <= i < self.chunks@.len() ==> (#[trigger] self.chunks@[i]).wf()
        &&& forall|i: int, j: int|
            0 <= i < j < self.chunks@.len() ==> (#[trigger] self.chunks@[i]).coords != (
            #[trigger] self.chunks@[j]).coords
    }

    /// Whether a chunk with chunk coordinates `(cx, cy)` is present.
    pub open spec fn has_chunk(self, cx: int, cy: int) -> bool {
        exists|i: int|
            0 <= i < self.chunks@.len() && (#[trigger] self.chunks@[i]).coords.0 == cx
                && self.chunks@[i].coords.1 == cy
    }

    /// Index of the chunk with chunk coordinates `(cx, cy)`, when present.
    pub open spec fn chunk_idx(self, cx: int, cy: int) -> int {
        choose|i: int|
            0 <= i < self.chunks@.len() && (#[trigger] self.chunks@[i]).coords.0 == cx
                && self.chunks@[i].coords.1 == cy
    }

    /// The height of world cell `(x, y)`; cells of absent chunks are zero.
    pub open spec fn at(self, x: int, y: int) -> int {
        if self.has_chunk(chunk_of(x), chunk_of(y)) {
            self.chunks@[self.chunk_idx(chunk_of(x), chunk_of(y))].cell(local_of(x), local_of(y))
        } else {
            0
        }
    }

    /// Whether the chunk at chunk coordinates `(cx, cy)` exists and is
    /// marked dirty for the mesh-regeneration consumer.
    pub open spec fn modified_at(self, cx: int, cy: int) -> bool {
        self.has_chunk(cx, cy) && self.chunks@[self.chunk_idx(cx, cy)].modified
    }

    /// In a well-formed field, the chunk at index `i` is the one that
    /// `chunk_idx` names for its coordinates.
    pub proof fn lemma_chunk_idx_of(self, i: int)
        requires
            self.wf(),
            0 <= i < self.chunks@.len(),
        ensures
            self.has_chunk(self.chunks@[i].coords.0 as int, self.chunks@[i].coords.1 as int),
            self.chunk_idx(self.chunks@[i].coords.0 as int, self.chunks@[i].coords.1 as int) == i,
    {
        let cx = self.chunks@[i].coords.0 as int;
        let cy = self.chunks@[i].coords.1 as int;
        assert(self.has_chunk(cx, cy));
        let j = self.chunk_idx(cx, cy);
        if i != j {
            assert(self.chunks@[i].coords != self.chunks@[j].coords);
            assert(false);
        }
    }

    /// Linear search for the chunk covering chunk coordinates `(cx, cy)`.
    fn find_chunk(&self, cx: i64, cy: i64) -> (r: Option<usize>)
        requires
            self.wf(),
        ensures
            match r {
                Some(i) => {
                    &&& i < self.chunks@.len()
                    &&& self.chunks@[i as int].coords.0 == cx
                    &&& self.chunks@[i as int].coords.1 == cy
                    &&& self.has_chunk(cx as int, cy as int)
                    &&& self.chunk_idx(cx as int, cy as int) == i
                },
                None => !self.has_chunk(cx as int, cy as int),
            },
    {
        let n = self.chunks.len();
        let mut i: usize = 0;
        while i < n
            invariant
                n == self.chunks@.len(),
                i <= n,
                self.wf(),
                forall|j: int|
                    0 <= j < i ==> !((#[trigger] self.chunks@[j]).coords.0 == cx
                        && self.chunks@[j].coords.1 == cy),
            decreases n - i,
        {
            let c = &self.chunks[i];
            if c.coords.0 == cx && c.coords.1 == cy {
                proof {
                    self.lemma_chunk_idx_of(i as int);
                }
                return Some(i);
            }
            i += 1;
        }
        None
    }

    /// An empty height field: every cell reads as zero.
    pub fn zeros() -> (t: Self)
        ensures
            t.wf(),
            t.chunks@.len() == 0,
            forall|x: int, y: int| #[trigger] t.at(x, y) == 0,
            forall|cx: int, cy: int| !#[trigger] t.modified_at(cx, cy),
    {
        TerrainData { chunks: Vec::new() }
    }

    /// Wrap an existing set of chunks (with pairwise distinct coordinates).
    pub fn new(data: Vec<TerrainDataChunk>) -> (t: Self)
        requires
            forall|i: int| 0 <= i < data@.len() ==> (#[trigger] data@[i]).wf(),
            forall|i: int, j: int|
                0 <= i < j < data@.len() ==> (#[trigger] data@[i]).coords != (
                #[trigger] data@[j]).coords,
        ensures
            t.wf(),
            t.chunks@ == data@,
    {
        TerrainData { chunks: data }
    }

    /// The chunk coordinates responsible for world cell `coordinates`:
    /// the floor of each component divided by the chunk side length.
    pub fn get_terrain_chunk_coordinates(coordinates: (i64, i64)) -> (r: (i64, i64))
        requires
            -CELL_LIMIT <= coordinates.0 <= CELL_LIMIT,
            -CELL_LIMIT <= coordinates.1 <= CELL_LIMIT,
        ensures
            r.0 == chunk_of(coordinates.0 as int),
            r.1 == chunk_of(coordinates.1 as int),
    {
        (floor_div(coordinates.0, CHUNK_SIZE_I), floor_div(coordinates.1, CHUNK_SIZE_I))
    }

    /// The local offset of world cell `coordinates` inside its chunk; both
    /// components always lie in `[0, CHUNK_SIZE)`, also for negative input.
    pub fn get_local_offsets(coordinates: (i64, i64)) -> (r: (i64, i64))
        requires
            -CELL_LIMIT <= coordinates.0 <= CELL_LIMIT,
            -CELL_LIMIT <= coordinates.1 <= CELL_LIMIT,
        ensures
            r.0 == local_of(coordinates.0 as int),
            r.1 == local_of(coordinates.1 as int),
            0 <= r.0 < CHUNK_SIZE_I,
            0 <= r.1 < CHUNK_SIZE_I,
    {
        (floor_mod(coordinates.0, CHUNK_SIZE_I), floor_mod(coordinates.1, CHUNK_SIZE_I))
    }

    /// Read the height of world cell `(x, y)`; absent chunks read as zero.
    pub fn read(&self, x: i64, y: i64) -> (r: i64)
        requires
            self.wf(),
            x > i64::MIN,
            y > i64::MIN,
        ensures
            r == self.at(x as int, y as int),
            -HEIGHT_LIMIT <= r <= HEIGHT_LIMIT,
    {
        let cx = floor_div(x, CHUNK_SIZE_I);
        let cy = floor_div(y, CHUNK_SIZE_I);
        let lx = floor_mod(x, CHUNK_SIZE_I);
        let ly = floor_mod(y, CHUNK_SIZE_I);
        match self.find_chunk(cx, cy) {
            Some(i) => {
                let c = &self.chunks[i];
                c.data[(ly as usize) * CHUNK_SIZE + (lx as usize)]
            },
            None => 0,
        }
    }
    /// In a well-formed field, a chunk that holds the chunk coordinates of
    /// world cell `(x, y)` determines `at(x, y)`.
    pub proof fn lemma_at_idx(self, i: int, x: int, y: int)
        requires
            self.wf(),
            0 <= i < self.chunks@.len(),
            self.chunks@[i].coords.0 == chunk_of(x),
            self.chunks@[i].coords.1 == chunk_of(y),
        ensures
            self.at(x, y) == self.chunks@[i].cell(local_of(x), local_of(y)),
    {
        self.lemma_chunk_idx_of(i);
    }

    /// Make sure the chunk at chunk coordinates `(cx, cy)` exists,
    /// allocating a zero-filled one when absent; every cell keeps its
    /// height and every dirty flag its value.
    fn ensure_chunk(&mut self, cx: i64, cy: i64) -> (i: usize)
        requires
            old(self).wf(),
            -CELL_LIMIT <= cx <= CELL_LIMIT,
            -CELL_LIMIT <= cy <= CELL_LIMIT,
        ensures
            final(self).wf(),
            i < final(self).chunks@.len(),
            final(self).chunks@[i as int].coords.0 == cx,
            final(self).chunks@[i as int].coords.1 == cy,
            final(self).chunk_idx(cx as int, cy as int) == i,
            forall|a: int, b: int| #[trigger] final(self).at(a, b) == old(self).at(a, b),
            forall|a: int, b: int|
                #[trigger] final(self).modified_at(a, b) == old(self).modified_at(a, b),
            forall|a: int, b: int|
                #[trigger] final(self).has_chunk(a, b) <==> (old(self).has_chunk(a, b) || (a == cx
                    && b == cy)),
    {
        match self.find_chunk(cx, cy) {
            Some(i) => {
                proof {
                    assert(forall|a: int, b: int|
                        #[trigger] final(self).has_chunk(a, b) <==> old(self).has_chunk(a, b));
                }
                i
            },
            None => {
                let c = TerrainDataChunk::new((cx, cy));
                let ghost prev = *self;
                self.chunks.push(c);
                let i = self.chunks.len() - 1;
                proof {
                    let n = prev.chunks@.len() as int;
                    assert(self.chunks@ == prev.chunks@.push(c));
                    assert forall|a: int, b: int| #[trigger]
                        self.has_chunk(a, b) <==> (prev.has_chunk(a, b) || (a == cx && b
                        == cy)) by {
                        if prev.has_chunk(a, b) {
                            let j = choose|j: int|
                                0 <= j < prev.chunks@.len() && (#[trigger] prev.chunks@[j]).coords.0
                                    == a && prev.chunks@[j].coords.1 == b;
                            assert(self.chunks@[j].coords.0 == a && self.chunks@[j].coords.1 == b);
                        }
                        if a == cx && b == cy {
                            assert(self.chunks@[n].coords.0 == a && self.chunks@[n].coords.1 == b);
                        }
                        if self.has_chunk(a, b) {
                            let j = choose|j: int|
                                0 <= j < self.chunks@.len() && (#[trigger] self.chunks@[j]).coords.0
                                    == a && self.chunks@[j].coords.1 == b;
                            if j < n {
                                assert(prev.chunks@[j].coords.0 == a && prev.chunks@[j].coords.1
                                    == b);
                            }
                        }
                    }
                    assert(self.wf()) by {
                        assert forall|p: int, q: int|
                            0 <= p < q < self.chunks@.len() implies (#[trigger] self.chunks@[p]).coords
                            != (#[trigger] self.chunks@[q]).coords by {
                            if q == n {
                                prev.lemma_chunk_idx_of(p);
                            }
                        }
                    }
                    self.lemma_chunk_idx_of(n);
                    assert forall|a: int, b: int| #[trigger]
                        self.at(a, b) == prev.at(a, b) by {
                        let ca = chunk_of(a);
                        let cb = chunk_of(b);
                        if prev.has_chunk(ca, cb) {
                            let j = prev.chunk_idx(ca, cb);
                            prev.lemma_chunk_idx_of(j);
                            self.lemma_at_idx(j, a, b);
                            prev.lemma_at_idx(j, a, b);
                        } else if ca == cx && cb == cy {
                            self.lemma_at_idx(n, a, b);
                            lemma_chunk_addressing(a);
                            lemma_chunk_addressing(b);
                            assert(self.chunks@[n].cell(local_of(a), local_of(b)) == 0);
                        } else {
                            assert(!self.has_chunk(ca, cb));
                        }
                    }
                    assert forall|a: int, b: int| #[trigger]
                        self.modified_at(a, b) == prev.modified_at(a, b) by {
                        if prev.has_chunk(a, b) {
                            let j = prev.chunk_idx(a, b);
                            prev.lemma_chunk_idx_of(j);
                            self.lemma_chunk_idx_of(j);
                        } else if a == cx && b == cy {
                            self.lemma_chunk_idx_of(n);
                            assert(!self.chunks@[n].modified);
                        } else {
                            assert(!self.has_chunk(a, b));
                        }
                    }
                }
                i
            },
        }
    }

    /// Set the height of world cell `(x, y)`, allocating the covering
    /// chunk when absent, and mark that chunk dirty.
    pub fn write(&mut self, x: i64, y: i64, v: i64)
        requires
            old(self).wf(),
            -CELL_LIMIT <= x <= CELL_LIMIT,
            -CELL_LIMIT <= y <= CELL_LIMIT,
            -HEIGHT_LIMIT <= v <= HEIGHT_LIMIT,
        ensures
            final(self).wf(),
            forall|a: int, b: int|
                #[trigger] final(self).at(a, b) == if a == x && b == y {
                    v as int
                } else {
                    old(self).at(a, b)
                },
            forall|a: int, b: int|
                #[trigger] final(self).modified_at(a, b) <==> (old(self).modified_at(a, b) || (a
                    == chunk_of(x as int) && b == chunk_of(y as int))),
            forall|a: int, b: int|
                #[trigger] final(self).has_chunk(a, b) <==> (old(self).has_chunk(a, b) || (a
                    == chunk_of(x as int) && b == chunk_of(y as int))),
    {
        let cx = floor_div(x, CHUNK_SIZE_I);
        let cy = floor_div(y, CHUNK_SIZE_I);
        let lx = floor_mod(x, CHUNK_SIZE_I);
        let ly = floor_mod(y, CHUNK_SIZE_I);
        let i = self.ensure_chunk(cx, cy);
        let ghost mid = *self;
        let di = (ly as usize) * CHUNK_SIZE + (lx as usize);
        self.chunks[i].data[di] = v;
        self.chunks[i].modified = true;
        proof {
            let n = mid.chunks@.len() as int;
            let ii = i as int;
            assert(self.chunks@[ii].data@ == mid.chunks@[ii].data@.update(di as int, v));
            assert(forall|j: int| 0 <= j < n && j != ii ==> self.chunks@[j] == mid.chunks@[j]);
            assert(self.wf()) by {
                assert forall|p: int, q: int|
                    0 <= p < q < self.chunks@.len() implies (#[trigger] self.chunks@[p]).coords != (
                #[trigger] self.chunks@[q]).coords by {
                    assert(mid.chunks@[p].coords != mid.chunks@[q].coords);
                    assert(self.chunks@[p].coords == mid.chunks@[p].coords);
                    assert(self.chunks@[q].coords == mid.chunks@[q].coords);
                }
            }
            assert forall|a: int, b: int| #[trigger]
                self.at(a, b) == if a == x && b == y {
                    v as int
                } else {
                    old(self).at(a, b)
                } by {
                let ca = chunk_of(a);
                let cb = chunk_of(b);
                lemma_chunk_addressing(a);
                lemma_chunk_addressing(b);
                lemma_chunk_addressing(x as int);
                lemma_chunk_addressing(y as int);
                if ca == cx && cb == cy {
                    self.lemma_at_idx(ii, a, b);
                    mid.lemma_at_idx(ii, a, b);
                    assert(self.chunks@[ii].cell(local_of(a), local_of(b)) == if local_of(a)
                        == local_of(x as int) && local_of(b) == local_of(y as int) {
                        v as int
                    } else {
                        mid.chunks@[ii].cell(local_of(a), local_of(b))
                    });
                } else {
                    if mid.has_chunk(ca, cb) {
                        let j = mid.chunk_idx(ca, cb);
                        mid.lemma_chunk_idx_of(j);
                        self.lemma_at_idx(j, a, b);
                        mid.lemma_at_idx(j, a, b);
                    } else {
                        assert(!self.has_chunk(ca, cb)) by {
                            if self.has_chunk(ca, cb) {
                                let j = self.chunk_idx(ca, cb);
                                self.lemma_chunk_idx_of(j);
                                assert(mid.chunks@[j].coords.0 == ca && mid.chunks@[j].coords.1
                                    == cb);
                            }
                        }
                    }
                }
            }
            assert forall|a: int, b: int| #[trigger]
                self.modified_at(a, b) <==> (old(self).modified_at(a, b) || (a == chunk_of(
                x as int) && b == chunk_of(y as int))) by {
                mid.lemma_chunk_idx_of(ii);
                assert(mid.modified_at(a, b) == old(self).modified_at(a, b));
                assert(self.chunks@[ii].coords == mid.chunks@[ii].coords);
                if mid.has_chunk(a, b) {
                    let j = mid.chunk_idx(a, b);
                    mid.lemma_chunk_idx_of(j);
                    self.lemma_chunk_idx_of(j);
                    assert(self.chunk_idx(a, b) == j);
                    assert(mid.chunk_idx(a, b) == j);
                    assert(self.modified_at(a, b) == self.chunks@[j].modified);
                    assert(mid.modified_at(a, b) == mid.chunks@[j].modified);
                    if j == ii {
                        assert(self.chunks@[ii].modified);
                        assert(a == cx as int && b == cy as int);
                    } else {
                        assert(self.chunks@[j].modified == mid.chunks@[j].modified);
                        assert(a != cx as int || b != cy as int);
                    }
                } else {
                    assert(!(a == cx as int && b == cy as int));
                    assert(!self.has_chunk(a, b)) by {
                        if self.has_chunk(a, b) {
                            let j = self.chunk_idx(a, b);
                            self.lemma_chunk_idx_of(j);
                            assert(mid.chunks@[j].coords.0 == a && mid.chunks@[j].coords.1 == b);
                        }
                    }
                }
            }
            assert forall|a: int, b: int| #[trigger]
                self.has_chunk(a, b) <==> mid.has_chunk(a, b) by {
                if mid.has_chunk(a, b) {
                    let j = mid.chunk_idx(a, b);
                    mid.lemma_chunk_idx_of(j);
                    self.lemma_chunk_idx_of(j);
                } else {
                    if self.has_chunk(a, b) {
                        let j = self.chunk_idx(a, b);
                        self.lemma_chunk_idx_of(j);
                        assert(mid.chunks@[j].coords.0 == a && mid.chunks@[j].coords.1 == b);
                    }
                }
            }
        }
    }
}

/// Every world cell coordinate decomposes uniquely into its chunk
/// coordinate and a local offset in `[0, CHUNK_SIZE)`.
pub proof fn lemma_chunk_addressing(x: int)
    ensures
        x == CHUNK_SIZE_I * chunk_of(x) + local_of(x),
        0 <= local_of(x) < CHUNK_SIZE_I,
{
    vstd::arithmetic::div_mod::lemma_fundamental_div_mod(x, CHUNK_SIZE_I as int);
    lemma_mod_in_range(x, CHUNK_SIZE_I as int);
}

/// The cell column containing subpixel coordinate `v`.
pub open spec fn cell_of(v: int) -> int {
    v / (FRAC as int)
}

/// The subpixel offset of coordinate `v` inside its cell, in `[0, FRAC)`.
pub open spec fn frac_of(v: int) -> int {
    v % (FRAC as int)
}

/// A position within the world range has its cell column within the
/// supported cell range, with room for the right and lower neighbors.
pub proof fn lemma_cell_of_range(v: int)
    requires
        -POS_LIMIT <= v <= POS_LIMIT,
    ensures
        -0x1_0000_0000 <= cell_of(v) <= 0x1_0000_0000,
{
    vstd::arithmetic::div_mod::lemma_div_is_ordered(v, POS_LIMIT as int, FRAC as int);
    vstd::arithmetic::div_mod::lemma_div_is_ordered(-(POS_LIMIT as int), v, FRAC as int);
    vstd::arithmetic::div_mod::lemma_div_multiples_vanish(0x1_0000_0000, FRAC as int);
    vstd::arithmetic::div_mod::lemma_div_multiples_vanish(-0x1_0000_0000, FRAC as int);
    assert((FRAC as int) * 0x1_0000_0000 == POS_LIMIT as int);
    assert((FRAC as int) * -0x1_0000_0000 == -(POS_LIMIT as int));
}

/// Bilinear weight of the floor/floor corner of the cell containing
/// `(px, py)`.
pub open spec fn weight_ff(px: int, py: int) -> int {
    (FRAC - frac_of(px)) * (FRAC - frac_of(py))
}

/// Bilinear weight of the ceil/floor corner.
pub open spec fn weight_cf(px: int, py: int) -> int {
    frac_of(px) * (FRAC - frac_of(py))
}

/// Bilinear weight of the floor/ceil corner.
pub open spec fn weight_fc(px: int, py: int) -> int {
    (FRAC - frac_of(px)) * frac_of(py)
}

/// Bilinear weight of the ceil/ceil corner.
pub open spec fn weight_cc(px: int, py: int) -> int {
    frac_of(px) * frac_of(py)
}

/// The four bilinear corner weights are nonnegative and always total
/// exactly `FRAC2`, for every subpixel offset: this is what makes a
/// weighted four-corner write conserve its delta.
pub proof fn lemma_bilinear_weights_total(px: int, py: int)
    ensures
        0 <= weight_ff(px, py) <= FRAC2,
        0 <= weight_cf(px, py) <= FRAC2,
        0 <= weight_fc(px, py) <= FRAC2,
        0 <= weight_cc(px, py) <= FRAC2,
        weight_ff(px, py) + weight_cf(px, py) + weight_fc(px, py) + weight_cc(px, py) == FRAC2,
{
    lemma_mod_in_range(px, FRAC as int);
    lemma_mod_in_range(py, FRAC as int);
    let fx = frac_of(px);
    let fy = frac_of(py);
    assert((256 - fx) * (256 - fy) + fx * (256 - fy) + (256 - fx) * fy + fx * fy == 65536
        && 0 <= (256 - fx) * (256 - fy) <= 65536 && 0 <= fx * (256 - fy) <= 65536 && 0 <= (256
        - fx) * fy <= 65536 && 0 <= fx * fy <= 65536) by (nonlinear_arith)
        requires
            0 <= fx < 256,
            0 <= fy < 256,
    ;
}

/// The share of delta `d` assigned to the ceil/floor corner.
pub open spec fn part_cf(px: int, py: int, d: int) -> int {
    (d * weight_cf(px, py)) / (FRAC2 as int)
}

/// The share of delta `d` assigned to the floor/ceil corner.
pub open spec fn part_fc(px: int, py: int, d: int) -> int {
    (d * weight_fc(px, py)) / (FRAC2 as int)
}

/// The share of delta `d` assigned to the ceil/ceil corner.
pub open spec fn part_cc(px: int, py: int, d: int) -> int {
    (d * weight_cc(px, py)) / (FRAC2 as int)
}

/// The share of delta `d` assigned to the floor/floor corner: whatever
/// the other three corners leave over, so the four shares total `d`.
pub open spec fn part_ff(px: int, py: int, d: int) -> int {
    d - part_cf(px, py, d) - part_fc(px, py, d) - part_cc(px, py, d)
}

/// A weighted share `(d * w) / FRAC2` with `0 <= w <= FRAC2` lies
/// between `0` and `d`.
pub proof fn lemma_scaled_part_bound(d: int, w: int)
    requires
        0 <= w <= FRAC2,
    ensures
        d >= 0 ==> 0 <= (d * w) / (FRAC2 as int) <= d,
        d < 0 ==> d <= (d * w) / (FRAC2 as int) <= 0,
{
    let f2 = FRAC2 as int;
    vstd::arithmetic::div_mod::lemma_div_multiples_vanish(d, f2);
    assert(f2 * d == d * f2);
    if d >= 0 {
        assert(0 <= d * w <= d * f2) by (nonlinear_arith)
            requires
                0 <= w <= f2,
                d >= 0,
        ;
        vstd::arithmetic::div_mod::lemma_div_is_ordered(0, d * w, f2);
        vstd::arithmetic::div_mod::lemma_div_is_ordered(d * w, d * f2, f2);
    } else {
        assert(d * f2 <= d * w <= 0) by (nonlinear_arith)
            requires
                0 <= w <= f2,
                d < 0,
        ;
        vstd::arithmetic::div_mod::lemma_div_is_ordered(d * f2, d * w, f2);
        vstd::arithmetic::div_mod::lemma_div_is_ordered(d * w, 0, f2);
        assert(0int / f2 == 0) by {
            vstd::arithmetic::div_mod::lemma_div_multiples_vanish(0, f2);
        }
    }
}

/// All four corner shares are bounded by the delta's magnitude (the
/// floor/floor remainder share by four times it), and they total `d`.
pub proof fn lemma_part_bounds(px: int, py: int, d: int)
    ensures
        ({
            let m = vstd::math::abs(d);
            &&& -m <= part_cf(px, py, d) <= m
            &&& -m <= part_fc(px, py, d) <= m
            &&& -m <= part_cc(px, py, d) <= m
            &&& -(4 * m) <= part_ff(px, py, d) <= 4 * m
            &&& part_ff(px, py, d) + part_cf(px, py, d) + part_fc(px, py, d) + part_cc(px, py, d)
                == d
        }),
{
    lemma_bilinear_weights_total(px, py);
    lemma_scaled_part_bound(d, weight_cf(px, py));
    lemma_scaled_part_bound(d, weight_fc(px, py));
    lemma_scaled_part_bound(d, weight_cc(px, py));
}

/// One cell of the field after a bilinear modification by `d` at
/// `(px, py)`: the four corners of the containing cell take their
/// weighted shares (clamped into the height range), everything else
/// keeps its height.
pub open spec fn bilin_cell(m: Map<(int, int), int>, px: int, py: int, d: int, a: int, b: int) -> int {
    let x0 = cell_of(px);
    let y0 = cell_of(py);
    if a == x0 && b == y0 {
        clamp_height(m[(a, b)] + part_ff(px, py, d))
    } else if a == x0 + 1 && b == y0 {
        clamp_height(m[(a, b)] + part_cf(px, py, d))
    } else if a == x0 && b == y0 + 1 {
        clamp_height(m[(a, b)] + part_fc(px, py, d))
    } else if a == x0 + 1 && b == y0 + 1 {
        clamp_height(m[(a, b)] + part_cc(px, py, d))
    } else {
        m[(a, b)]
    }
}

/// The whole field after a bilinear modification by `d` at `(px, py)`.
pub open spec fn bilin_map(m: Map<(int, int), int>, px: int, py: int, d: int) -> Map<
    (int, int),
    int,
> {
    Map::total(|p: (int, int)| bilin_cell(m, px, py, d, p.0, p.1))
}

/// Whether chunk coordinates `(a, b)` cover a corner cell that takes a
/// nonzero share of a modification by `d` at `(px, py)`: only such
/// corners are written, allocated and marked dirty.
pub open spec fn dirties(px: int, py: int, d: int, a: int, b: int) -> bool {
    let x0 = cell_of(px);
    let y0 = cell_of(py);
    ||| (part_ff(px, py, d) != 0 && a == chunk_of(x0) && b == chunk_of(y0))
    ||| (part_cf(px, py, d) != 0 && a == chunk_of(x0 + 1) && b == chunk_of(y0))
    ||| (part_fc(px, py, d) != 0 && a == chunk_of(x0) && b == chunk_of(y0 + 1))
    ||| (part_cc(px, py, d) != 0 && a == chunk_of(x0 + 1) && b == chunk_of(y0 + 1))
}

impl TerrainData {
    /// The field as a total map from world cell coordinates to heights.
    pub open spec fn grid(self) -> Map<(int, int), int> {
        Map::total(|p: (int, int)| self.at(p.0, p.1))
    }

    /// Bilinear interpolation of the height at subpixel position
    /// `(px, py)`: the weighted average of the four surrounding lattice
    /// corners, rounded toward negative infinity in fixed point.
    pub open spec fn spec_sample(self, px: int, py: int) -> int {
        let x0 = cell_of(px);
        let y0 = cell_of(py);
        (weight_ff(px, py) * self.at(x0, y0) + weight_cf(px, py) * self.at(x0 + 1, y0) + weight_fc(
            px,
            py,
        ) * self.at(x0, y0 + 1) + weight_cc(px, py) * self.at(x0 + 1, y0 + 1)) / (FRAC2 as int)
    }

    /// Sample the height at a subpixel position by bilinear interpolation
    /// over the four surrounding lattice corners. Total over the whole
    /// world range; at an exact lattice point it returns that cell's
    /// height exactly.
    pub fn sample(&self, pos: Pos) -> (r: Option<i64>)
        requires
            self.wf(),
            pos.in_range(),
        ensures
            r is Some,
            r->0 == self.spec_sample(pos.x as int, pos.y as int),
            -HEIGHT_LIMIT <= r->0 <= HEIGHT_LIMIT,
            pos.is_lattice() ==> r->0 == self.at(cell_of(pos.x as int), cell_of(pos.y as int)),
    {
        proof {
            lemma_cell_of_range(pos.x as int);
            lemma_cell_of_range(pos.y as int);
        }
        let x0 = floor_div(pos.x, FRAC);
        let y0 = floor_div(pos.y, FRAC);
        let fx = floor_mod(pos.x, FRAC);
        let fy = floor_mod(pos.y, FRAC);
        let h00 = self.read(x0, y0);
        let h10 = self.read(x0 + 1, y0);
        let h01 = self.read(x0, y0 + 1);
        let h11 = self.read(x0 + 1, y0 + 1);
        proof {
            assert(0 <= (FRAC - fx) as int * (FRAC - fy) as int <= 65536 && 0 <= fx as int * (FRAC
                - fy) as int <= 65536 && 0 <= (FRAC - fx) as int * fy as int <= 65536 && 0
                <= fx as int * fy as int <= 65536) by (nonlinear_arith)
                requires
                    0 <= fx < 256,
                    0 <= fy < 256,
                    FRAC == 256,
            ;
        }
        let w00 = (FRAC - fx) * (FRAC - fy);
        let w10 = fx * (FRAC - fy);
        let w01 = (FRAC - fx) * fy;
        let w11 = fx * fy;
        proof {
            lemma_bilinear_weights_total(pos.x as int, pos.y as int);
            lemma_mul_bound(w00 as int, h00 as int, FRAC2 as int, HEIGHT_LIMIT as int);
            lemma_mul_bound(w10 as int, h10 as int, FRAC2 as int, HEIGHT_LIMIT as int);
            lemma_mul_bound(w01 as int, h01 as int, FRAC2 as int, HEIGHT_LIMIT as int);
            lemma_mul_bound(w11 as int, h11 as int, FRAC2 as int, HEIGHT_LIMIT as int);
        }
        let sum = w00 * h00 + w10 * h10 + w01 * h01 + w11 * h11;
        let v = floor_div(sum, FRAC2);
        proof {
            let f2 = FRAC2 as int;
            let s = sum as int;
            assert(-(f2 * (HEIGHT_LIMIT as int)) <= s <= f2 * (HEIGHT_LIMIT as int));
            vstd::arithmetic::div_mod::lemma_div_is_ordered(s, f2 * (HEIGHT_LIMIT as int), f2);
            vstd::arithmetic::div_mod::lemma_div_is_ordered(-(f2 * (HEIGHT_LIMIT as int)), s, f2);
            vstd::arithmetic::div_mod::lemma_div_multiples_vanish(HEIGHT_LIMIT as int, f2);
            vstd::arithmetic::div_mod::lemma_div_multiples_vanish(-(HEIGHT_LIMIT as int), f2);
            if pos.is_lattice() {
                assert(s == f2 * (h00 as int));
                vstd::arithmetic::div_mod::lemma_div_multiples_vanish(h00 as int, f2);
            }
        }
        Some(v)
    }

    /// Distribute `delta` over the four lattice corners surrounding
    /// `pos` with the bilinear weights, so that the total height added
    /// is exactly `delta` (up to clamping at the height range), and mark
    /// every touched chunk dirty.
    pub fn modify(&mut self, pos: Pos, delta: i64)
        requires
            old(self).wf(),
            pos.in_range(),
            -DELTA_LIMIT <= delta <= DELTA_LIMIT,
        ensures
            final(self).wf(),
            forall|a: int, b: int|
                #[trigger] final(self).at(a, b) == bilin_cell(
                    old(self).grid(),
                    pos.x as int,
                    pos.y as int,
                    delta as int,
                    a,
                    b,
                ),
            final(self).grid() == bilin_map(
                old(self).grid(),
                pos.x as int,
                pos.y as int,
                delta as int,
            ),
            forall|a: int, b: int|
                #[trigger] final(self).modified_at(a, b) <==> (old(self).modified_at(a, b)
                    || dirties(pos.x as int, pos.y as int, delta as int, a, b)),
            forall|a: int, b: int|
                #[trigger] final(self).has_chunk(a, b) <==> (old(self).has_chunk(a, b)
                    || dirties(pos.x as int, pos.y as int, delta as int, a, b)),
    {
        let ghost px = pos.x as int;
        let ghost py = pos.y as int;
        let ghost d = delta as int;
        proof {
            lemma_cell_of_range(px);
            lemma_cell_of_range(py);
            lemma_bilinear_weights_total(px, py);
            lemma_part_bounds(px, py, d);
        }
        let x0 = floor_div(pos.x, FRAC);
        let y0 = floor_div(pos.y, FRAC);
        let fx = floor_mod(pos.x, FRAC);
        let fy = floor_mod(pos.y, FRAC);
        proof {
            assert(0 <= fx as int * (FRAC - fy) as int <= 65536 && 0 <= (FRAC - fx) as int
                * fy as int <= 65536 && 0 <= fx as int * fy as int <= 65536) by (nonlinear_arith)
                requires
                    0 <= fx < 256,
                    0 <= fy < 256,
                    FRAC == 256,
            ;
        }
        let w10 = fx * (FRAC - fy);
        let w01 = (FRAC - fx) * fy;
        let w11 = fx * fy;
        proof {
            lemma_mul_bound(w10 as int, delta as int, FRAC2 as int, DELTA_LIMIT as int);
            lemma_mul_bound(w01 as int, delta as int, FRAC2 as int, DELTA_LIMIT as int);
            lemma_mul_bound(w11 as int, delta as int, FRAC2 as int, DELTA_LIMIT as int);
        }
        let q10 = floor_div(delta * w10, FRAC2);
        let q01 = floor_div(delta * w01, FRAC2);
        let q11 = floor_div(delta * w11, FRAC2);
        let q00 = delta - q10 - q01 - q11;
        proof {
            assert(q10 == part_cf(px, py, d));
            assert(q01 == part_fc(px, py, d));
            assert(q11 == part_cc(px, py, d));
            assert(q00 == part_ff(px, py, d));
        }
        let ghost t0 = *old(self);
        proof {
            t0.lemma_grid_in_range();
        }
        if q00 != 0 {
            let h1 = self.read(x0, y0);
            let v1 = clamp_height_exec(h1 + q00);
            self.write(x0, y0, v1);
        }
        let ghost t1 = *self;
        if q10 != 0 {
            let h2 = self.read(x0 + 1, y0);
            let v2 = clamp_height_exec(h2 + q10);
            self.write(x0 + 1, y0, v2);
        }
        let ghost t2 = *self;
        if q01 != 0 {
            let h3 = self.read(x0, y0 + 1);
            let v3 = clamp_height_exec(h3 + q01);
            self.write(x0, y0 + 1, v3);
        }
        let ghost t3 = *self;
        if q11 != 0 {
            let h4 = self.read(x0 + 1, y0 + 1);
            let v4 = clamp_height_exec(h4 + q11);
            self.write(x0 + 1, y0 + 1, v4);
        }
        proof {
            let cx0 = cell_of(px);
            let cy0 = cell_of(py);
            assert forall|a: int, b: int| #[trigger]
                self.at(a, b) == bilin_cell(t0.grid(), px, py, d, a, b) by {
                assert(t0.grid()[(a, b)] == t0.at(a, b));
                assert(t0.grid()[(cx0, cy0)] == t0.at(cx0, cy0));
                assert(t0.grid()[(cx0 + 1, cy0)] == t0.at(cx0 + 1, cy0));
                assert(t0.grid()[(cx0, cy0 + 1)] == t0.at(cx0, cy0 + 1));
                assert(t0.grid()[(cx0 + 1, cy0 + 1)] == t0.at(cx0 + 1, cy0 + 1));
                assert(t1.at(cx0 + 1, cy0) == t0.at(cx0 + 1, cy0));
                assert(t2.at(cx0, cy0 + 1) == t0.at(cx0, cy0 + 1));
                assert(t3.at(cx0 + 1, cy0 + 1) == t0.at(cx0 + 1, cy0 + 1));
            }
            assert(self.grid() =~= bilin_map(t0.grid(), px, py, d)) by {
                assert(forall|p: (int, int)| #[trigger]
                    self.grid()[p] == bilin_cell(t0.grid(), px, py, d, p.0, p.1));
            }
            assert forall|a: int, b: int| #[trigger]
                self.modified_at(a, b) <==> (t0.modified_at(a, b) || dirties(px, py, d, a, b)) by {}
            assert forall|a: int, b: int| #[trigger]
                self.has_chunk(a, b) <==> (t0.has_chunk(a, b) || dirties(px, py, d, a, b)) by {}
        }
    }

    /// Whether the chunk at chunk coordinates `(cx, cy)` exists and is
    /// marked dirty since the last mesh regeneration.
    pub fn is_modified(&self, cx: i64, cy: i64) -> (r: bool)
        requires
            self.wf(),
        ensures
            r == self.modified_at(cx as int, cy as int),
    {
        match self.find_chunk(cx, cy) {
            Some(i) => self.chunks[i].modified,
            None => false,
        }
    }

    /// Clear the dirty flag of the chunk at chunk coordinates
    /// `(cx, cy)`, as the mesh-regeneration consumer does after it has
    /// re-triangulated that chunk. Heights are untouched.
    pub fn clear_modified(&mut self, cx: i64, cy: i64)
        requires
            old(self).wf(),
        ensures
            final(self).wf(),
            forall|a: int, b: int| #[trigger] final(self).at(a, b) == old(self).at(a, b),
            forall|a: int, b: int|
                #[trigger] final(self).has_chunk(a, b) <==> old(self).has_chunk(a, b),
            forall|a: int, b: int|
                #[trigger] final(self).modified_at(a, b) <==> (old(self).modified_at(a, b) && !(a
                    == cx && b == cy)),
    {
        let found = self.find_chunk(cx, cy);
        match found {
            Some(i) => {
                let ghost mid = *self;
                self.chunks[i].modified = false;
                proof {
                    let ii = i as int;
                    assert(self.chunks@[ii].coords == mid.chunks@[ii].coords);
                    assert(self.chunks@[ii].data@ == mid.chunks@[ii].data@);
                    assert(forall|j: int|
                        0 <= j < self.chunks@.len() && j != ii ==> self.chunks@[j]
                            == mid.chunks@[j]);
                    assert(self.wf()) by {
                        assert forall|p: int, q: int|
                            0 <= p < q < self.chunks@.len() implies (#[trigger] self.chunks@[p]).coords
                            != (#[trigger] self.chunks@[q]).coords by {
                            assert(mid.chunks@[p].coords != mid.chunks@[q].coords);
                            assert(self.chunks@[p].coords == mid.chunks@[p].coords);
                            assert(self.chunks@[q].coords == mid.chunks@[q].coords);
                        }
                    }
                    assert forall|a: int, b: int| #[trigger]
                        self.has_chunk(a, b) <==> mid.has_chunk(a, b) by {
                        if mid.has_chunk(a, b) {
                            let j = mid.chunk_idx(a, b);
                            mid.lemma_chunk_idx_of(j);
                            self.lemma_chunk_idx_of(j);
                        } else {
                            if self.has_chunk(a, b) {
                                let j = self.chunk_idx(a, b);
                                self.lemma_chunk_idx_of(j);
                                assert(mid.chunks@[j].coords.0 == a && mid.chunks@[j].coords.1
                                    == b);
                            }
                        }
                    }
                    assert forall|a: int, b: int| #[trigger]
                        self.at(a, b) == mid.at(a, b) by {
                        let ca = chunk_of(a);
                        let cb = chunk_of(b);
                        if mid.has_chunk(ca, cb) {
                            let j = mid.chunk_idx(ca, cb);
                            mid.lemma_chunk_idx_of(j);
                            self.lemma_at_idx(j, a, b);
                            mid.lemma_at_idx(j, a, b);
                        } else {
                            assert(!self.has_chunk(ca, cb));
                        }
                    }
                    assert forall|a: int, b: int| #[trigger]
                        self.modified_at(a, b) <==> (mid.modified_at(a, b) && !(a == cx && b
                        == cy)) by {
                        mid.lemma_chunk_idx_of(ii);
                        if mid.has_chunk(a, b) {
                            let j = mid.chunk_idx(a, b);
                            mid.lemma_chunk_idx_of(j);
                            self.lemma_chunk_idx_of(j);
                            if j == ii {
                                assert(!self.chunks@[ii].modified);
                                assert(a == cx as int && b == cy as int);
                            } else {
                                assert(self.chunks@[j].modified == mid.chunks@[j].modified);
                                assert(a != cx as int || b != cy as int);
                            }
                        } else {
                            assert(!self.has_chunk(a, b));
                        }
                    }
                }
            },
            None => {},
        }
    }

    /// Build a dense square field from row-major samples: cell `(x, y)`
    /// of the `size x size` region takes `samples[y * size + x]`, and
    /// every cell outside the region stays zero.
    pub fn from_samples(size: usize, samples: &Vec<i64>) -> (t: TerrainData)
        requires
            size <= 4096,
            samples@.len() == size * size,
            forall|i: int|
                0 <= i < samples@.len() ==> -HEIGHT_LIMIT <= #[trigger] samples@[i] <= HEIGHT_LIMIT,
        ensures
            t.wf(),
            forall|x: int, y: int|
                0 <= x < size && 0 <= y < size ==> #[trigger] t.at(x, y) == samples@[y * size + x],
            forall|x: int, y: int|
                !(0 <= x < size && 0 <= y < size) ==> #[trigger] t.at(x, y) == 0,
            t.grid() == samples_grid(size as int, samples@),
    {
        let mut t = TerrainData::zeros();
        let mut y: usize = 0;
        while y < size
            invariant
                t.wf(),
                y <= size <= 4096,
                samples@.len() == size * size,
                forall|i: int|
                    0 <= i < samples@.len() ==> -HEIGHT_LIMIT <= #[trigger] samples@[i]
                        <= HEIGHT_LIMIT,
                forall|a: int, b: int|
                    0 <= a < size && 0 <= b < y ==> #[trigger] t.at(a, b) == samples@[b * size + a],
                forall|a: int, b: int|
                    !(0 <= a < size && 0 <= b < y) ==> #[trigger] t.at(a, b) == 0,
            decreases size - y,
        {
            let mut x: usize = 0;
            while x < size
                invariant
                    t.wf(),
                    x <= size,
                    y < size <= 4096,
                    samples@.len() == size * size,
                    forall|i: int|
                        0 <= i < samples@.len() ==> -HEIGHT_LIMIT <= #[trigger] samples@[i]
                            <= HEIGHT_LIMIT,
                    forall|a: int, b: int|
                        0 <= a < size && 0 <= b < y ==> #[trigger] t.at(a, b) == samples@[b * size
                            + a],
                    forall|a: int, b: int|
                        0 <= a < x && b == y ==> #[trigger] t.at(a, b) == samples@[b * size + a],
                    forall|a: int, b: int|
                        !(0 <= a < size && 0 <= b < y) && !(0 <= a < x && b == y) ==> #[trigger] t.at(
                            a,
                            b,
                        ) == 0,
                decreases size - x,
            {
                proof {
                    assert(y * size + x < size * size && y * size + x >= 0 && y * size <= 4096
                        * 4096 && size * size <= 4096 * 4096) by (nonlinear_arith)
                        requires
                            0 <= x < size,
                            0 <= y < size,
                            size <= 4096,
                    ;
                }
                let v = samples[y * size + x];
                t.write(x as i64, y as i64, v);
                x = x + 1;
            }
            y = y + 1;
        }
        proof {
            assert(t.grid() =~= samples_grid(size as int, samples@)) by {
                assert(forall|p: (int, int)| #[trigger] t.grid()[p] == t.at(p.0, p.1));
            }
        }
        t
    }

    /// The raw downhill gradient along x: left sample minus right sample.
    pub open spec fn grad_x(self, px: int, py: int) -> int {
        self.spec_sample(px - FRAC, py) - self.spec_sample(px + FRAC, py)
    }

    /// The raw downhill gradient along y: up sample minus down sample.
    pub open spec fn grad_y(self, px: int, py: int) -> int {
        self.spec_sample(px, py - FRAC) - self.spec_sample(px, py + FRAC)
    }

    /// The x component of the downhill unit step: the gradient divided
    /// by its Euclidean length and scaled to one cell (`FRAC`), each
    /// component's magnitude rounded down, or zero on flat terrain.
    pub open spec fn slope_step_x(self, px: int, py: int) -> int {
        let gx = self.grad_x(px, py);
        let gy = self.grad_y(px, py);
        if gx == 0 && gy == 0 {
            0
        } else {
            let len = sqrt_floor(gx * gx + gy * gy);
            if gx >= 0 {
                (vstd::math::abs(gx) * FRAC) as int / len
            } else {
                -((vstd::math::abs(gx) * FRAC) as int / len)
            }
        }
    }

    /// The y component of the downhill unit step.
    pub open spec fn slope_step_y(self, px: int, py: int) -> int {
        let gx = self.grad_x(px, py);
        let gy = self.grad_y(px, py);
        if gx == 0 && gy == 0 {
            0
        } else {
            let len = sqrt_floor(gx * gx + gy * gy);
            if gy >= 0 {
                (vstd::math::abs(gy) * FRAC) as int / len
            } else {
                -((vstd::math::abs(gy) * FRAC) as int / len)
            }
        }
    }

    /// The downhill direction at `pos`: the vector of the four cardinal
    /// neighbor samples, normalized to unit length (one cell) in fixed
    /// point, or the zero vector on flat terrain. Total over the
    /// supported range, so it always returns a vector.
    #[verifier::rlimit(100)]
    pub fn get_slope_vector(&self, pos: Pos) -> (r: Option<Pos>)
        requires
            self.wf(),
            pos.in_slope_range(),
        ensures
            r is Some,
            r->0.x == self.slope_step_x(pos.x as int, pos.y as int),
            r->0.y == self.slope_step_y(pos.x as int, pos.y as int),
            -FRAC <= r->0.x <= FRAC,
            -FRAC <= r->0.y <= FRAC,
            (self.grad_x(pos.x as int, pos.y as int) == 0 && self.grad_y(pos.x as int, pos.y as int)
                == 0) <==> r->0 == (Pos { x: 0, y: 0 }),
            self.spec_sample(pos.x as int - FRAC, pos.y as int) == self.spec_sample(
                pos.x as int + FRAC,
                pos.y as int,
            ) && self.spec_sample(pos.x as int, pos.y as int - FRAC) == self.spec_sample(
                pos.x as int,
                pos.y as int + FRAC,
            ) ==> r->0 == (Pos { x: 0, y: 0 }),
            self.grad_y(pos.x as int, pos.y as int) == 0 && self.grad_x(pos.x as int, pos.y as int)
                != 0 ==> vstd::math::abs(r->0.x as int) == FRAC && r->0.y == 0,
            self.grad_x(pos.x as int, pos.y as int) == 0 && self.grad_y(pos.x as int, pos.y as int)
                != 0 ==> vstd::math::abs(r->0.y as int) == FRAC && r->0.x == 0,
            self.grad_x(pos.x as int, pos.y as int) >= 0 ==> r->0.x >= 0,
            self.grad_x(pos.x as int, pos.y as int) <= 0 ==> r->0.x <= 0,
            self.grad_y(pos.x as int, pos.y as int) >= 0 ==> r->0.y >= 0,
            self.grad_y(pos.x as int, pos.y as int) <= 0 ==> r->0.y <= 0,
    {
        let left = self.sample(Pos { x: pos.x - FRAC, y: pos.y }).unwrap();
        let right = self.sample(Pos { x: pos.x + FRAC, y: pos.y }).unwrap();
        let up = self.sample(Pos { x: pos.x, y: pos.y - FRAC }).unwrap();
        let down = self.sample(Pos { x: pos.x, y: pos.y + FRAC }).unwrap();
        let gx = left - right;
        let gy = up - down;
        if gx == 0 && gy == 0 {
            return Some(Pos { x: 0, y: 0 });
        }
        let ax = if gx < 0 {
            -gx
        } else {
            gx
        };
        let ay = if gy < 0 {
            -gy
        } else {
            gy
        };
        proof {
            assert((ax as u128) * (ax as u128) + (ay as u128) * (ay as u128)
                < 0x4000_0000_0000_0000_0000_0000_0000_0000) by (nonlinear_arith)
                requires
                    0 <= ax <= 0x2000_0000_0000,
                    0 <= ay <= 0x2000_0000_0000,
            ;
        }
        let d2: u128 = (ax as u128) * (ax as u128) + (ay as u128) * (ay as u128);
        let len64 = isqrt(d2);
        proof {
            assert(ax <= len64 && ay <= len64 && 1 <= len64 && len64 < 0x4000_0000_0000)
                by (nonlinear_arith)
                requires
                    0 <= ax <= 0x2000_0000_0000,
                    0 <= ay <= 0x2000_0000_0000,
                    1 <= ax || 1 <= ay,
                    d2 == (ax as u128) * (ax as u128) + (ay as u128) * (ay as u128),
                    len64 * len64 <= d2,
                    d2 < (len64 + 1) * (len64 + 1),
            ;
        }
        let len = len64 as i64;
        proof {
            assert(gx as int * gx as int == ax as int * ax as int && gy as int * gy as int
                == ay as int * ay as int) by (nonlinear_arith)
                requires
                    ax as int == gx as int || ax as int == -(gx as int),
                    ay as int == gy as int || ay as int == -(gy as int),
            ;
            assert(d2 as int == gx as int * gx as int + gy as int * gy as int);
            assert(len as int == sqrt_floor(gx as int * gx as int + gy as int * gy as int));
            vstd::arithmetic::div_mod::lemma_div_multiples_vanish(FRAC as int, len as int);
            assert(len * FRAC == FRAC * len);
            vstd::arithmetic::div_mod::lemma_div_is_ordered(ax as int * FRAC, len as int * FRAC,
                len as int);
            vstd::arithmetic::div_mod::lemma_div_is_ordered(ay as int * FRAC, len as int * FRAC,
                len as int);
            vstd::arithmetic::div_mod::lemma_div_pos_is_pos(ax as int * FRAC, len as int);
            vstd::arithmetic::div_mod::lemma_div_pos_is_pos(ay as int * FRAC, len as int);
            // The larger component keeps at least one subpixel unit, so a
            // nonzero gradient never normalizes to the zero vector.
            assert(len < ax * FRAC || len < ay * FRAC) by (nonlinear_arith)
                requires
                    0 <= ax,
                    0 <= ay,
                    1 <= ax || 1 <= ay,
                    len * len <= (ax as u128) * (ax as u128) + (ay as u128) * (ay as u128),
                    0 <= len,
                    FRAC == 256,
            ;
            vstd::arithmetic::div_mod::lemma_div_multiples_vanish(1, len as int);
            if len < ax * FRAC {
                vstd::arithmetic::div_mod::lemma_div_is_ordered(len as int, ax as int * FRAC,
                    len as int);
            } else {
                vstd::arithmetic::div_mod::lemma_div_is_ordered(len as int, ay as int * FRAC,
                    len as int);
            }
            if gy == 0 {
                assert(len <= ax) by (nonlinear_arith)
                    requires
                        ay == 0,
                        0 <= ax,
                        0 <= len,
                        len * len <= (ax as u128) * (ax as u128) + (ay as u128) * (ay as u128),
                ;
                vstd::arithmetic::div_mod::lemma_div_multiples_vanish(0, len as int);
                assert(ay as int * FRAC == len as int * 0);
            }
            if gx == 0 {
                assert(len <= ay) by (nonlinear_arith)
                    requires
                        ax == 0,
                        0 <= ay,
                        0 <= len,
                        len * len <= (ax as u128) * (ax as u128) + (ay as u128) * (ay as u128),
                ;
                vstd::arithmetic::div_mod::lemma_div_multiples_vanish(0, len as int);
                assert(ax as int * FRAC == len as int * 0);
            }
        }
        let sx_mag = floor_div(ax * FRAC, len);
        let sy_mag = floor_div(ay * FRAC, len);
        let sx = if gx < 0 {
            -sx_mag
        } else {
            sx_mag
        };
        let sy = if gy < 0 {
            -sy_mag
        } else {
            sy_mag
        };
        Some(Pos { x: sx, y: sy })
    }
}

/// Bilinear interpolation over a grid map: the same weighted average
/// of the four surrounding lattice corners as `spec_sample`, stated on
/// the abstract grid so evolving fields can be sampled in specs.
pub open spec fn sample_m(m: Map<(int, int), int>, px: int, py: int) -> int {
    let x0 = cell_of(px);
    let y0 = cell_of(py);
    (weight_ff(px, py) * m[(x0, y0)] + weight_cf(px, py) * m[(x0 + 1, y0)] + weight_fc(px, py)
        * m[(x0, y0 + 1)] + weight_cc(px, py) * m[(x0 + 1, y0 + 1)]) / (FRAC2 as int)
}

/// The raw downhill gradient along x over a grid map.
pub open spec fn grad_x_m(m: Map<(int, int), int>, px: int, py: int) -> int {
    sample_m(m, px - FRAC, py) - sample_m(m, px + FRAC, py)
}

/// The raw downhill gradient along y over a grid map.
pub open spec fn grad_y_m(m: Map<(int, int), int>, px: int, py: int) -> int {
    sample_m(m, px, py - FRAC) - sample_m(m, px, py + FRAC)
}

/// The x component of the downhill unit step over a grid map.
pub open spec fn slope_step_x_m(m: Map<(int, int), int>, px: int, py: int) -> int {
    let gx = grad_x_m(m, px, py);
    let gy = grad_y_m(m, px, py);
    if gx == 0 && gy == 0 {
        0
    } else {
        let len = sqrt_floor(gx * gx + gy * gy);
        if gx >= 0 {
            (vstd::math::abs(gx) * FRAC) as int / len
        } else {
            -((vstd::math::abs(gx) * FRAC) as int / len)
        }
    }
}

/// The y component of the downhill unit step over a grid map.
pub open spec fn slope_step_y_m(m: Map<(int, int), int>, px: int, py: int) -> int {
    let gx = grad_x_m(m, px, py);
    let gy = grad_y_m(m, px, py);
    if gx == 0 && gy == 0 {
        0
    } else {
        let len = sqrt_floor(gx * gx + gy * gy);
        if gy >= 0 {
            (vstd::math::abs(gy) * FRAC) as int / len
        } else {
            -((vstd::math::abs(gy) * FRAC) as int / len)
        }
    }
}

/// On a field's grid the map-level sample agrees with the field's.
pub proof fn lemma_sample_m_agrees(t: TerrainData, px: int, py: int)
    ensures
        sample_m(t.grid(), px, py) == t.spec_sample(px, py),
{
    assert(forall|p: (int, int)| #[trigger] t.grid()[p] == t.at(p.0, p.1));
}

/// On a field's grid the map-level gradient and unit step agree with
/// the field's.
pub proof fn lemma_slope_m_agrees(t: TerrainData, px: int, py: int)
    ensures
        grad_x_m(t.grid(), px, py) == t.grad_x(px, py),
        grad_y_m(t.grid(), px, py) == t.grad_y(px, py),
        slope_step_x_m(t.grid(), px, py) == t.slope_step_x(px, py),
        slope_step_y_m(t.grid(), px, py) == t.slope_step_y(px, py),
{
    lemma_sample_m_agrees(t, px - FRAC, py);
    lemma_sample_m_agrees(t, px + FRAC, py);
    lemma_sample_m_agrees(t, px, py - FRAC);
    lemma_sample_m_agrees(t, px, py + FRAC);
}

/// The grid a dense square sample fill denotes: row-major samples
/// inside the region, zero outside.
pub open spec fn samples_grid(size: int, samples: Seq<i64>) -> Map<(int, int), int> {
    Map::total(
        |p: (int, int)|
            if 0 <= p.0 < size && 0 <= p.1 < size {
                samples[p.1 * size + p.0] as int
            } else {
                0
            },
    )
}

/// All heights of the map lie within `[-bound, bound]`.
pub open spec fn grid_within(m: Map<(int, int), int>, bound: int) -> bool {
    forall|p: (int, int)| -bound <= #[trigger] m[p] <= bound
}

impl TerrainData {
    /// A well-formed field's grid stays within the height range.
    pub proof fn lemma_grid_in_range(self)
        requires
            self.wf(),
        ensures
            grid_within(self.grid(), HEIGHT_LIMIT as int),
    {
        assert forall|p: (int, int)|
            -HEIGHT_LIMIT <= #[trigger] self.grid()[p] <= HEIGHT_LIMIT by {
            let x = p.0;
            let y = p.1;
            if self.has_chunk(chunk_of(x), chunk_of(y)) {
                let i = self.chunk_idx(chunk_of(x), chunk_of(y));
                assert(0 <= i < self.chunks@.len() && self.chunks@[i].coords.0 == chunk_of(x)
                    && self.chunks@[i].coords.1 == chunk_of(y));
                lemma_chunk_addressing(x);
                lemma_chunk_addressing(y);
                assert(0 <= local_of(y) * (CHUNK_SIZE as int) + local_of(x) < CHUNK_AREA);
            }
        }
    }
}

/// A bilinear modification keeps every height within the height range.
pub proof fn lemma_bilin_in_range(m: Map<(int, int), int>, px: int, py: int, d: int)
    requires
        grid_within(m, HEIGHT_LIMIT as int),
    ensures
        grid_within(bilin_map(m, px, py, d), HEIGHT_LIMIT as int),
{
}

/// At a lattice position the three fractional corner shares vanish and
/// the floor/floor corner takes the whole delta.
pub proof fn lemma_parts_lattice(px: int, py: int, d: int)
    requires
        frac_of(px) == 0,
        frac_of(py) == 0,
    ensures
        part_cf(px, py, d) == 0,
        part_fc(px, py, d) == 0,
        part_cc(px, py, d) == 0,
        part_ff(px, py, d) == d,
{
    let f2 = FRAC2 as int;
    assert(weight_cf(px, py) == 0);
    assert(weight_fc(px, py) == 0);
    assert(weight_cc(px, py) == 0);
    assert(d * 0 == f2 * 0) by (nonlinear_arith);
    vstd::arithmetic::div_mod::lemma_div_multiples_vanish(0, f2);
}

/// At a lattice position a bilinear modification is a plain clamped
/// add at that single cell: every other cell keeps its height.
pub proof fn lemma_bilin_lattice(m: Map<(int, int), int>, px: int, py: int, d: int)
    requires
        frac_of(px) == 0,
        frac_of(py) == 0,
        grid_within(m, HEIGHT_LIMIT as int),
    ensures
        forall|a: int, b: int|
            #[trigger] bilin_map(m, px, py, d)[(a, b)] == if a == cell_of(px) && b == cell_of(py) {
                clamp_height(m[(a, b)] + d)
            } else {
                m[(a, b)]
            },
{
    lemma_parts_lattice(px, py, d);
}

/// A lattice coordinate shifted by a whole number of cells stays on the
/// lattice, and its cell moves by exactly that number.
pub proof fn lemma_lattice_offset(v: int, d: int)
    requires
        frac_of(v) == 0,
    ensures
        frac_of(v + d * FRAC) == 0,
        cell_of(v + d * FRAC) == cell_of(v) + d,
{
    vstd::arithmetic::div_mod::lemma_fundamental_div_mod(v, FRAC as int);
    assert(v + d * FRAC == (cell_of(v) + d) * (FRAC as int) + 0) by (nonlinear_arith)
        requires
            v == (FRAC as int) * cell_of(v),
    ;
    vstd::arithmetic::div_mod::lemma_fundamental_div_mod_converse(
        v + d * FRAC,
        FRAC as int,
        cell_of(v) + d,
        0,
    );
}

/// Conservation: a bilinear modification by `d` at `(px, py)` changes
/// the total height of the four affected corner cells by exactly `d`,
/// and leaves every other cell unchanged, whenever the four corners
/// have room for their shares before the height clamp.
pub proof fn lemma_modify_conserves(g: Map<(int, int), int>, px: int, py: int, d: int)
    requires
        -DELTA_LIMIT <= d <= DELTA_LIMIT,
        ({
            let x0 = cell_of(px);
            let y0 = cell_of(py);
            forall|a: int, b: int|
                (a == x0 || a == x0 + 1) && (b == y0 || b == y0 + 1) ==> -(HEIGHT_LIMIT - 4
                    * DELTA_LIMIT) <= #[trigger] g[(a, b)] <= HEIGHT_LIMIT - 4 * DELTA_LIMIT
        }),
    ensures
        ({
            let g2 = bilin_map(g, px, py, d);
            let x0 = cell_of(px);
            let y0 = cell_of(py);
            &&& (g2[(x0, y0)] - g[(x0, y0)]) + (g2[(x0 + 1, y0)] - g[(x0 + 1, y0)]) + (g2[(
                x0,
                y0 + 1,
            )] - g[(x0, y0 + 1)]) + (g2[(x0 + 1, y0 + 1)] - g[(x0 + 1, y0 + 1)]) == d
            &&& forall|a: int, b: int|
                !((a == x0 || a == x0 + 1) && (b == y0 || b == y0 + 1)) ==> #[trigger] g2[(a, b)]
                    == g[(a, b)]
        }),
{
    lemma_part_bounds(px, py, d);
}

/// Sampling identity: at an exact lattice point the bilinear sample
/// equals the height stored in that cell, exactly.
pub proof fn lemma_sample_lattice(t: TerrainData, px: int, py: int)
    requires
        frac_of(px) == 0,
        frac_of(py) == 0,
    ensures
        t.spec_sample(px, py) == t.at(cell_of(px), cell_of(py)),
{
    let f2 = FRAC2 as int;
    assert(weight_ff(px, py) == f2);
    assert(weight_cf(px, py) == 0);
    assert(weight_fc(px, py) == 0);
    assert(weight_cc(px, py) == 0);
    let h = t.at(cell_of(px), cell_of(py));
    assert(f2 * h + 0 * t.at(cell_of(px) + 1, cell_of(py)) + 0 * t.at(
        cell_of(px),
        cell_of(py) + 1,
    ) + 0 * t.at(cell_of(px) + 1, cell_of(py) + 1) == f2 * h) by (nonlinear_arith);
    vstd::arithmetic::div_mod::lemma_div_multiples_vanish(h, f2);
}

/// The aggregate handed to the generator and the brushes: a height
/// field together with the fixed-point world-scale, height-scale and
/// noise-scale parameters that only the generator reads.
pub struct Terrain {
    pub data: TerrainData,
    pub worldscale: i64,
    pub height: i64,
    pub noisescale: i64,
}

impl Default for Terrain {
    /// An empty terrain with the interactive editor's default scales:
    /// world scale 256, height scale 64 and noise scale 1/100, all in
    /// `UNIT` fixed point.
    fn default() -> (t: Terrain)
        ensures
            t.data.wf(),
            t.data.chunks@.len() == 0,
            forall|x: int, y: int| #[trigger] t.data.at(x, y) == 0,
            t.worldscale == 256 * UNIT,
            t.height == 64 * UNIT,
            t.noisescale == UNIT / 100,
    {
        Terrain {
            data: TerrainData::zeros(),
            worldscale: 256 * UNIT,
            height: 64 * UNIT,
            noisescale: UNIT / 100,
        }
    }
}

} // verus!
