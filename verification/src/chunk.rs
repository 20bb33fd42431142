//! A fixed-size dense tile of height samples: the unit of lazy allocation
//! and of dirty-tracking in the height field.

use vstd::prelude::*;

verus! {

use crate::fixed::{CELL_LIMIT, HEIGHT_LIMIT};

/// Side length of a chunk, in cells.
pub const CHUNK_SIZE: usize = 64;

/// Side length of a chunk as a signed coordinate.
pub const CHUNK_SIZE_I: i64 = 64;

/// Number of cells a chunk holds.
pub const CHUNK_AREA: usize = 64 * 64;

/// A dense `CHUNK_SIZE x CHUNK_SIZE` tile of heights, row-major by local
/// y then x, together with its position in chunk space and a dirty flag.
pub struct TerrainDataChunk {
    pub data: Vec<i64>,
    pub coords: (i64, i64),
    pub modified: bool,
}

impl TerrainDataChunk {
    /// Well-formed: full tile, every height in range, coords in range.
    pub open spec fn wf(self) -> bool {
        &&& self.data@.len() == CHUNK_AREA
        &&& forall|i: int|
            0 <= i < self.data@.len() ==> -HEIGHT_LIMIT <= #[trigger] self.data@[i] <= HEIGHT_LIMIT
        &&& -CELL_LIMIT <= self.coords.0 <= CELL_LIMIT
        &&& -CELL_LIMIT <= self.coords.1 <= CELL_LIMIT
    }

    /// The height stored at local cell `(lx, ly)`.
    pub open spec fn cell(self, lx: int, ly: int) -> int
        recommends
            0 <= lx < CHUNK_SIZE,
            0 <= ly < CHUNK_SIZE,
    {
        self.data@[ly * (CHUNK_SIZE as int) + lx] as int
    }

    /// A fresh all-zero chunk at the given chunk coordinates.
    pub fn new(coords: (i64, i64)) -> (c: Self)
        requires
            -CELL_LIMIT <= coords.0 <= CELL_LIMIT,
            -CELL_LIMIT <= coords.1 <= CELL_LIMIT,
        ensures
            c.wf(),
            c.coords == coords,
            !c.modified,
            forall|lx: int, ly: int|
                0 <= lx < CHUNK_SIZE && 0 <= ly < CHUNK_SIZE ==> #[trigger] c.cell(lx, ly) == 0,
    {
        let mut data: Vec<i64> = Vec::new();
        while data.len() < CHUNK_AREA
            invariant
                data@.len() <= CHUNK_AREA,
                forall|i: int| 0 <= i < data@.len() ==> #[trigger] data@[i] == 0,
            decreases CHUNK_AREA - data@.len(),
        {
            data.push(0);
        }
        TerrainDataChunk { data, coords, modified: false }
    }

    /// Read the cell at `(x + x_offset, y + y_offset)` if that lands
    /// inside this chunk; `None` whenever the offset position falls
    /// outside it. Total over every local position and offset.
    pub fn get_safe(&self, x: usize, y: usize, x_offset: i64, y_offset: i64) -> (r: Option<i64>)
        requires
            self.wf(),
        ensures
            ({
                let nx = x + x_offset;
                let ny = y + y_offset;
                if 0 <= nx < CHUNK_SIZE && 0 <= ny < CHUNK_SIZE {
                    r is Some && r->0 == self.cell(nx, ny)
                } else {
                    r is None
                }
            }),
    {
        let nx = x as i128 + x_offset as i128;
        let ny = y as i128 + y_offset as i128;
        if 0 <= nx && nx < CHUNK_SIZE as i128 && 0 <= ny && ny < CHUNK_SIZE as i128 {
            Some(self.data[(ny as usize) * CHUNK_SIZE + (nx as usize)])
        } else {
            None
        }
    }
}

} // verus!
