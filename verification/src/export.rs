//! The persistence consumer of the height field: pack the populated
//! chunk rectangle into one dense row-major pixel buffer, one pixel per
//! cell, with unpopulated interior cells exported as zero. Encoding the
//! buffer into an image file stays with the host's I/O layer.

use vstd::prelude::*;

verus! {

use crate::chunk::{TerrainDataChunk, CHUNK_SIZE, CHUNK_SIZE_I};
use crate::fixed::CELL_LIMIT;
use crate::terrain::TerrainData;

/// Largest exported side, in chunks: a memory bound, since the export
/// is a dense buffer over the whole populated rectangle and two far
/// apart chunks would force a quadratically large allocation.
pub const EXPORT_MAX_CHUNKS: i64 = 64;

/// The least chunk column among the chunks of the sequence.
pub open spec fn min_chunk_x(s: Seq<TerrainDataChunk>) -> int
    decreases s.len(),
{
    if s.len() <= 1 {
        if s.len() == 1 {
            s[0].coords.0 as int
        } else {
            0
        }
    } else {
        vstd::math::min(min_chunk_x(s.drop_last()), s.last().coords.0 as int)
    }
}

/// The least chunk row among the chunks of the sequence.
pub open spec fn min_chunk_y(s: Seq<TerrainDataChunk>) -> int
    decreases s.len(),
{
    if s.len() <= 1 {
        if s.len() == 1 {
            s[0].coords.1 as int
        } else {
            0
        }
    } else {
        vstd::math::min(min_chunk_y(s.drop_last()), s.last().coords.1 as int)
    }
}

/// The greatest chunk column among the chunks of the sequence.
pub open spec fn max_chunk_x(s: Seq<TerrainDataChunk>) -> int
    decreases s.len(),
{
    if s.len() <= 1 {
        if s.len() == 1 {
            s[0].coords.0 as int
        } else {
            0
        }
    } else {
        vstd::math::max(max_chunk_x(s.drop_last()), s.last().coords.0 as int)
    }
}

/// The greatest chunk row among the chunks of the sequence.
pub open spec fn max_chunk_y(s: Seq<TerrainDataChunk>) -> int
    decreases s.len(),
{
    if s.len() <= 1 {
        if s.len() == 1 {
            s[0].coords.1 as int
        } else {
            0
        }
    } else {
        vstd::math::max(max_chunk_y(s.drop_last()), s.last().coords.1 as int)
    }
}

/// A dense row-major image of the populated chunk rectangle: one pixel
/// per height-field cell.
pub struct ExportImage {
    pub width: usize,
    pub height: usize,
    pub pixels: Vec<i64>,
}

impl TerrainData {
    /// Pack the populated chunk rectangle into a dense row-major pixel
    /// buffer: pixel `(px, py)` holds the height of world cell
    /// `(min_cx * CHUNK_SIZE + px, min_cy * CHUNK_SIZE + py)`, so
    /// unpopulated cells of the rectangle export as zero. Returns
    /// `None` exactly when the field holds no chunk at all, or the
    /// populated rectangle exceeds `EXPORT_MAX_CHUNKS` chunks per side.
    pub fn export_heights(&self) -> (r: Option<ExportImage>)
        requires
            self.wf(),
        ensures
            ({
                let s = self.chunks@;
                let wc = max_chunk_x(s) - min_chunk_x(s) + 1;
                let hc = max_chunk_y(s) - min_chunk_y(s) + 1;
                match r {
                    Some(img) => {
                        &&& s.len() > 0
                        &&& wc <= EXPORT_MAX_CHUNKS
                        &&& hc <= EXPORT_MAX_CHUNKS
                        &&& img.width == wc * CHUNK_SIZE
                        &&& img.height == hc * CHUNK_SIZE
                        &&& img.pixels@.len() == img.width * img.height
                        &&& forall|px: int, py: int|
                            0 <= px < img.width && 0 <= py < img.height
                                ==> #[trigger] img.pixels@[py * img.width as int + px] == self.at(
                                min_chunk_x(s) * CHUNK_SIZE + px,
                                min_chunk_y(s) * CHUNK_SIZE + py,
                            )
                    },
                    None => s.len() == 0 || wc > EXPORT_MAX_CHUNKS || hc > EXPORT_MAX_CHUNKS,
                }
            }),
    {
        let ghost s = self.chunks@;
        let n = self.chunks.len();
        if n == 0 {
            return None;
        }
        let c0 = &self.chunks[0];
        let mut min_cx = c0.coords.0;
        let mut min_cy = c0.coords.1;
        let mut max_cx = c0.coords.0;
        let mut max_cy = c0.coords.1;
        proof {
            assert(s.take(1) =~= seq![s[0]]);
        }
        let mut i: usize = 1;
        while i < n
            invariant
                1 <= i <= n,
                n == s.len(),
                s == self.chunks@,
                self.wf(),
                min_cx == min_chunk_x(s.take(i as int)),
                min_cy == min_chunk_y(s.take(i as int)),
                max_cx == max_chunk_x(s.take(i as int)),
                max_cy == max_chunk_y(s.take(i as int)),
                min_cx <= max_cx,
                min_cy <= max_cy,
                -CELL_LIMIT <= min_cx <= CELL_LIMIT,
                -CELL_LIMIT <= min_cy <= CELL_LIMIT,
                -CELL_LIMIT <= max_cx <= CELL_LIMIT,
                -CELL_LIMIT <= max_cy <= CELL_LIMIT,
            decreases n - i,
        {
            let c = &self.chunks[i];
            proof {
                assert(s.take(i as int + 1).drop_last() =~= s.take(i as int));
                assert(s.take(i as int + 1).last() == s[i as int]);
            }
            if c.coords.0 < min_cx {
                min_cx = c.coords.0;
            }
            if c.coords.1 < min_cy {
                min_cy = c.coords.1;
            }
            if c.coords.0 > max_cx {
                max_cx = c.coords.0;
            }
            if c.coords.1 > max_cy {
                max_cy = c.coords.1;
            }
            i = i + 1;
        }
        proof {
            assert(s.take(n as int) =~= s);
        }
        let wchunks = max_cx - min_cx + 1;
        let hchunks = max_cy - min_cy + 1;
        if wchunks > EXPORT_MAX_CHUNKS || hchunks > EXPORT_MAX_CHUNKS {
            return None;
        }
        let width = (wchunks * CHUNK_SIZE_I) as usize;
        let height = (hchunks * CHUNK_SIZE_I) as usize;
        let base_x = min_cx * CHUNK_SIZE_I;
        let base_y = min_cy * CHUNK_SIZE_I;
        let mut pixels: Vec<i64> = Vec::new();
        let mut py: usize = 0;
        while py < height
            invariant
                py <= height,
                self.wf(),
                s == self.chunks@,
                1 <= width <= 4096,
                1 <= height <= 4096,
                width == (max_chunk_x(s) - min_chunk_x(s) + 1) * CHUNK_SIZE,
                height == (max_chunk_y(s) - min_chunk_y(s) + 1) * CHUNK_SIZE,
                base_x == min_chunk_x(s) * CHUNK_SIZE,
                base_y == min_chunk_y(s) * CHUNK_SIZE,
                -CELL_LIMIT * 64 <= base_x <= CELL_LIMIT * 64,
                -CELL_LIMIT * 64 <= base_y <= CELL_LIMIT * 64,
                pixels@.len() == py * width,
                py * width <= height * width,
                forall|j: int|
                    0 <= j < pixels@.len() ==> #[trigger] pixels@[j] == self.at(
                        base_x + j % (width as int),
                        base_y + j / (width as int),
                    ),
            decreases height - py,
        {
            let mut px: usize = 0;
            while px < width
                invariant
                    px <= width,
                    py < height,
                    self.wf(),
                    s == self.chunks@,
                    1 <= width <= 4096,
                    1 <= height <= 4096,
                    width == (max_chunk_x(s) - min_chunk_x(s) + 1) * CHUNK_SIZE,
                    height == (max_chunk_y(s) - min_chunk_y(s) + 1) * CHUNK_SIZE,
                    base_x == min_chunk_x(s) * CHUNK_SIZE,
                    base_y == min_chunk_y(s) * CHUNK_SIZE,
                    -CELL_LIMIT * 64 <= base_x <= CELL_LIMIT * 64,
                    -CELL_LIMIT * 64 <= base_y <= CELL_LIMIT * 64,
                    pixels@.len() == py * width + px,
                    py * width + px <= height * width,
                    forall|j: int|
                        0 <= j < pixels@.len() ==> #[trigger] pixels@[j] == self.at(
                            base_x + j % (width as int),
                            base_y + j / (width as int),
                        ),
                decreases width - px,
            {
                proof {
                    vstd::arithmetic::div_mod::lemma_fundamental_div_mod_converse(
                        py as int * (width as int) + px as int,
                        width as int,
                        py as int,
                        px as int,
                    );
                    assert(py * width + px < height * width) by (nonlinear_arith)
                        requires
                            0 <= px < width,
                            0 <= py < height,
                    ;
                }
                pixels.push(self.read(base_x + px as i64, base_y + py as i64));
                px = px + 1;
            }
            py = py + 1;
            proof {
                assert((py as int) * (width as int) == (py as int - 1) * (width as int) + (
                width as int)) by (nonlinear_arith);
            }
        }
        proof {
            assert forall|px: int, py2: int| 0 <= px < width && 0 <= py2 < height implies #[trigger]
                pixels@[py2 * width as int + px] == self.at(
                min_chunk_x(s) * CHUNK_SIZE + px,
                min_chunk_y(s) * CHUNK_SIZE + py2,
            ) by {
                vstd::arithmetic::div_mod::lemma_fundamental_div_mod_converse(
                    py2 * (width as int) + px,
                    width as int,
                    py2,
                    px,
                );
                assert(0 <= py2 * (width as int) + px < (height as int) * (width as int))
                    by (nonlinear_arith)
                    requires
                        0 <= px < width,
                        0 <= py2 < height,
                ;
            }
            assert((height as int) * (width as int) == (width as int) * (height as int));
        }
        Some(ExportImage { width, height, pixels })
    }
}

} // verus!
