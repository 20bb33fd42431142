//! The mesh-data consumer of the height field: for one chunk it builds
//! the `(CHUNK_SIZE + 1)^2` vertex grid of heights (the extra row and
//! column reach into the neighbor chunks), finite-difference normals,
//! texture coordinates, and two triangles per cell quad. Normalizing
//! the normal vectors and uploading buffers stay with the host renderer.

use vstd::prelude::*;

verus! {

use crate::UNIT;
use crate::chunk::{CHUNK_SIZE, CHUNK_SIZE_I};
use crate::terrain::{Terrain, TerrainData};

/// The raw, un-normalized vertex normal at world cell `(wx, wz)`: a
/// 6-point finite difference of the neighbor heights, with a constant
/// vertical component of one cell (`6 * UNIT` in fixed point, matching
/// the six taps).
pub open spec fn normal_of(t: TerrainData, wx: int, wz: int) -> (int, int, int) {
    let up = t.at(wx, wz - 1);
    let upright = t.at(wx + 1, wz - 1);
    let right = t.at(wx + 1, wz);
    let down = t.at(wx, wz + 1);
    let downleft = t.at(wx - 1, wz + 1);
    let left = t.at(wx - 1, wz);
    (
        2 * (left - right) - upright + downleft + up - down,
        2 * (down - up) + upright + downleft - up - left,
        6 * UNIT,
    )
}

/// The two triangles of the cell quad at grid position `(x, z)` stand
/// at their place in the index list, with base vertex `i`:
/// `(i, i+1, i+side)` and `(i+side+1, i+side, i+1)`.
pub open spec fn quad_indexed(indices: Seq<u32>, x: int, z: int) -> bool {
    let q = x * (CHUNK_SIZE as int) + z;
    let i = x * (CHUNK_SIZE + 1) + z;
    &&& #[trigger] indices[6 * q] == i
    &&& indices[6 * q + 1] == i + 1
    &&& indices[6 * q + 2] == i + CHUNK_SIZE + 1
    &&& indices[6 * q + 3] == i + CHUNK_SIZE + 2
    &&& indices[6 * q + 4] == i + CHUNK_SIZE + 1
    &&& indices[6 * q + 5] == i + 1
}

/// The mesh data of one chunk, ready for the host renderer: vertex
/// heights and raw normals over the `(CHUNK_SIZE + 1)^2` grid, per-vertex
/// texture coordinates and world cell positions, and the triangle
/// index list.
pub struct MeshData {
    pub heights: Vec<i64>,
    pub normals: Vec<(i64, i64, i64)>,
    pub uvs: Vec<(i64, i64)>,
    pub real_positions: Vec<(i64, i64)>,
    pub indices: Vec<u32>,
}

/// Build the mesh data of the chunk at `chunk_coordinates`: vertex
/// `(x, z)` of the grid takes the height of world cell
/// `(cx * CHUNK_SIZE + x, cy * CHUNK_SIZE + z)` and its raw normal, and
/// each cell quad contributes its two triangles.
pub fn generate_mesh(terrain: &Terrain, chunk_coordinates: (i64, i64)) -> (md: MeshData)
    requires
        terrain.data.wf(),
        -0x100_0000 <= chunk_coordinates.0 <= 0x100_0000,
        -0x100_0000 <= chunk_coordinates.1 <= 0x100_0000,
    ensures
        md.heights@.len() == (CHUNK_SIZE + 1) * (CHUNK_SIZE + 1),
        md.normals@.len() == (CHUNK_SIZE + 1) * (CHUNK_SIZE + 1),
        md.uvs@.len() == (CHUNK_SIZE + 1) * (CHUNK_SIZE + 1),
        md.real_positions@.len() == (CHUNK_SIZE + 1) * (CHUNK_SIZE + 1),
        md.indices@.len() == CHUNK_SIZE * CHUNK_SIZE * 6,
        forall|x: int, z: int|
            0 <= x <= CHUNK_SIZE && 0 <= z <= CHUNK_SIZE ==> #[trigger] md.heights@[x * (
            CHUNK_SIZE + 1) + z] == terrain.data.at(
                chunk_coordinates.0 * CHUNK_SIZE + x,
                chunk_coordinates.1 * CHUNK_SIZE + z,
            ),
        forall|x: int, z: int|
            0 <= x <= CHUNK_SIZE && 0 <= z <= CHUNK_SIZE ==> {
                let n = #[trigger] md.normals@[x * (CHUNK_SIZE + 1) + z];
                (n.0 as int, n.1 as int, n.2 as int) == normal_of(
                    terrain.data,
                    chunk_coordinates.0 * CHUNK_SIZE + x,
                    chunk_coordinates.1 * CHUNK_SIZE + z,
                )
            },
        forall|x: int, z: int|
            0 <= x <= CHUNK_SIZE && 0 <= z <= CHUNK_SIZE ==> #[trigger] md.uvs@[x * (CHUNK_SIZE + 1)
                + z] == (x as i64, z as i64),
        forall|x: int, z: int|
            0 <= x <= CHUNK_SIZE && 0 <= z <= CHUNK_SIZE ==> #[trigger] md.real_positions@[x * (
            CHUNK_SIZE + 1) + z] == (
                (chunk_coordinates.0 * CHUNK_SIZE + x) as i64,
                (chunk_coordinates.1 * CHUNK_SIZE + z) as i64,
            ),
        forall|x: int, z: int|
            0 <= x < CHUNK_SIZE && 0 <= z < CHUNK_SIZE ==> quad_indexed(
                md.indices@,
                x,
                z,
            ),
{
    let base_x = chunk_coordinates.0 * CHUNK_SIZE_I;
    let base_z = chunk_coordinates.1 * CHUNK_SIZE_I;
    let side = CHUNK_SIZE + 1;
    let mut heights: Vec<i64> = Vec::new();
    let mut normals: Vec<(i64, i64, i64)> = Vec::new();
    let mut uvs: Vec<(i64, i64)> = Vec::new();
    let mut real_positions: Vec<(i64, i64)> = Vec::new();
    let mut x: usize = 0;
    while x < side
        invariant
            side == CHUNK_SIZE + 1,
            x <= side,
            base_x == chunk_coordinates.0 * CHUNK_SIZE_I,
            base_z == chunk_coordinates.1 * CHUNK_SIZE_I,
            -0x100_0000 <= chunk_coordinates.0 <= 0x100_0000,
            -0x100_0000 <= chunk_coordinates.1 <= 0x100_0000,
            terrain.data.wf(),
            heights@.len() == x * side,
            normals@.len() == x * side,
            uvs@.len() == x * side,
            real_positions@.len() == x * side,
            x * side <= side * side,
            forall|i: int|
                0 <= i < heights@.len() ==> #[trigger] heights@[i] == terrain.data.at(
                    base_x + i / (side as int),
                    base_z + i % (side as int),
                ),
            forall|i: int|
                0 <= i < normals@.len() ==> ({
                    let n = #[trigger] normals@[i];
                    (n.0 as int, n.1 as int, n.2 as int) == normal_of(
                        terrain.data,
                        base_x + i / (side as int),
                        base_z + i % (side as int),
                    )
                }),
            forall|i: int|
                0 <= i < uvs@.len() ==> #[trigger] uvs@[i] == ((i / (side as int)) as i64, (i % (
                side as int)) as i64),
            forall|i: int|
                0 <= i < real_positions@.len() ==> #[trigger] real_positions@[i] == ((base_x + i / (
                side as int)) as i64, (base_z + i % (side as int)) as i64),
        decreases side - x,
    {
        let mut z: usize = 0;
        while z < side
            invariant
                side == CHUNK_SIZE + 1,
                x < side,
                z <= side,
                base_x == chunk_coordinates.0 * CHUNK_SIZE_I,
                base_z == chunk_coordinates.1 * CHUNK_SIZE_I,
                -0x100_0000 <= chunk_coordinates.0 <= 0x100_0000,
                -0x100_0000 <= chunk_coordinates.1 <= 0x100_0000,
                terrain.data.wf(),
                heights@.len() == x * side + z,
                normals@.len() == x * side + z,
                uvs@.len() == x * side + z,
                real_positions@.len() == x * side + z,
                x * side + z <= side * side,
                forall|i: int|
                    0 <= i < heights@.len() ==> #[trigger] heights@[i] == terrain.data.at(
                        base_x + i / (side as int),
                        base_z + i % (side as int),
                    ),
                forall|i: int|
                    0 <= i < normals@.len() ==> ({
                        let n = #[trigger] normals@[i];
                        (n.0 as int, n.1 as int, n.2 as int) == normal_of(
                            terrain.data,
                            base_x + i / (side as int),
                            base_z + i % (side as int),
                        )
                    }),
                forall|i: int|
                    0 <= i < uvs@.len() ==> #[trigger] uvs@[i] == ((i / (side as int)) as i64, (i
                        % (side as int)) as i64),
                forall|i: int|
                    0 <= i < real_positions@.len() ==> #[trigger] real_positions@[i] == ((base_x + i
                        / (side as int)) as i64, (base_z + i % (side as int)) as i64),
            decreases side - z,
        {
            proof {
                vstd::arithmetic::div_mod::lemma_fundamental_div_mod_converse(
                    x as int * (side as int) + z as int,
                    side as int,
                    x as int,
                    z as int,
                );
                assert(x * side + z < side * side) by (nonlinear_arith)
                    requires
                        0 <= x < side,
                        0 <= z < side,
                ;
            }
            let wx = base_x + x as i64;
            let wz = base_z + z as i64;
            heights.push(terrain.data.read(wx, wz));
            let up = terrain.data.read(wx, wz - 1);
            let upright = terrain.data.read(wx + 1, wz - 1);
            let right = terrain.data.read(wx + 1, wz);
            let down = terrain.data.read(wx, wz + 1);
            let downleft = terrain.data.read(wx - 1, wz + 1);
            let left = terrain.data.read(wx - 1, wz);
            normals.push(
                (
                    2 * (left - right) - upright + downleft + up - down,
                    2 * (down - up) + upright + downleft - up - left,
                    6 * UNIT,
                ),
            );
            uvs.push((x as i64, z as i64));
            real_positions.push((wx, wz));
            z = z + 1;
        }
        x = x + 1;
        proof {
            assert((x as int) * (side as int) == (x as int - 1) * (side as int) + (side as int))
                by (nonlinear_arith);
        }
    }
    let mut indices: Vec<u32> = Vec::new();
    let mut qx: usize = 0;
    while qx < CHUNK_SIZE
        invariant
            qx <= CHUNK_SIZE,
            indices@.len() == 6 * (qx * CHUNK_SIZE),
            qx * CHUNK_SIZE <= CHUNK_SIZE * CHUNK_SIZE,
            forall|q: int|
                0 <= q < qx * CHUNK_SIZE ==> #[trigger] quad_indexed(
                    indices@,
                    q / (CHUNK_SIZE as int),
                    q % (CHUNK_SIZE as int),
                ),
        decreases CHUNK_SIZE - qx,
    {
        let mut qz: usize = 0;
        while qz < CHUNK_SIZE
            invariant
                qx < CHUNK_SIZE,
                qz <= CHUNK_SIZE,
                indices@.len() == 6 * (qx * CHUNK_SIZE + qz),
                qx * CHUNK_SIZE + qz <= CHUNK_SIZE * CHUNK_SIZE,
                forall|q: int|
                    0 <= q < qx * CHUNK_SIZE + qz ==> #[trigger] quad_indexed(
                        indices@,
                        q / (CHUNK_SIZE as int),
                        q % (CHUNK_SIZE as int),
                    ),
            decreases CHUNK_SIZE - qz,
        {
            proof {
                vstd::arithmetic::div_mod::lemma_fundamental_div_mod_converse(
                    qx as int * (CHUNK_SIZE as int) + qz as int,
                    CHUNK_SIZE as int,
                    qx as int,
                    qz as int,
                );
                assert(qx * CHUNK_SIZE + qz < CHUNK_SIZE * CHUNK_SIZE && qx * (CHUNK_SIZE + 1) + qz
                    < (CHUNK_SIZE + 1) * (CHUNK_SIZE + 1)) by (nonlinear_arith)
                    requires
                        0 <= qx < CHUNK_SIZE,
                        0 <= qz < CHUNK_SIZE,
                ;
                assert((CHUNK_SIZE + 1) * (CHUNK_SIZE + 1) == 4225) by (nonlinear_arith)
                    requires
                        CHUNK_SIZE == 64,
                ;
            }
            let ghost inds0 = indices@;
            let i = (qx * (CHUNK_SIZE + 1) + qz) as u32;
            indices.push(i);
            indices.push(i + 1);
            indices.push(i + (CHUNK_SIZE as u32) + 1);
            indices.push(i + (CHUNK_SIZE as u32) + 2);
            indices.push(i + (CHUNK_SIZE as u32) + 1);
            indices.push(i + 1);
            proof {
                let ghost q0 = qx as int * (CHUNK_SIZE as int) + qz as int;
                assert(forall|j: int| 0 <= j < inds0.len() ==> #[trigger] indices@[j] == inds0[j]);
                assert(quad_indexed(indices@, qx as int, qz as int));
                assert forall|q: int| 0 <= q < q0 + 1 implies #[trigger] quad_indexed(
                    indices@,
                    q / (CHUNK_SIZE as int),
                    q % (CHUNK_SIZE as int),
                ) by {
                    if q < q0 {
                        crate::fixed::lemma_floor_div_in_range(q, CHUNK_SIZE as int);
                        assert(quad_indexed(inds0, q / (CHUNK_SIZE as int), q % (
                        CHUNK_SIZE as int)));
                        assert(6 * q + 5 < 6 * q0);
                    } else {
                        assert(q == q0);
                    }
                }
            }
            qz = qz + 1;
        }
        proof {
            assert((qx + 1) * (CHUNK_SIZE as int) == qx * (CHUNK_SIZE as int) + CHUNK_SIZE)
                by (nonlinear_arith);
        }
        qx = qx + 1;
    }
    proof {
        assert((CHUNK_SIZE as int) * (CHUNK_SIZE as int) == 4096 && (side as int) * (side as int)
            == 4225) by (nonlinear_arith)
            requires
                CHUNK_SIZE == 64,
                side == 65,
        ;
        assert forall|vx: int, vz: int| 0 <= vx <= CHUNK_SIZE && 0 <= vz <= CHUNK_SIZE implies ({
            &&& #[trigger] heights@[vx * (CHUNK_SIZE + 1) + vz] == terrain.data.at(
                chunk_coordinates.0 * CHUNK_SIZE + vx,
                chunk_coordinates.1 * CHUNK_SIZE + vz,
            )
            &&& ({
                let n = normals@[vx * (CHUNK_SIZE + 1) + vz];
                (n.0 as int, n.1 as int, n.2 as int) == normal_of(
                    terrain.data,
                    chunk_coordinates.0 * CHUNK_SIZE + vx,
                    chunk_coordinates.1 * CHUNK_SIZE + vz,
                )
            })
            &&& uvs@[vx * (CHUNK_SIZE + 1) + vz] == (vx as i64, vz as i64)
            &&& real_positions@[vx * (CHUNK_SIZE + 1) + vz] == (
                (chunk_coordinates.0 * CHUNK_SIZE + vx) as i64,
                (chunk_coordinates.1 * CHUNK_SIZE + vz) as i64,
            )
        }) by {
            vstd::arithmetic::div_mod::lemma_fundamental_div_mod_converse(
                vx * (side as int) + vz,
                side as int,
                vx,
                vz,
            );
            assert(0 <= vx * (side as int) + vz < (side as int) * (side as int))
                by (nonlinear_arith)
                requires
                    0 <= vx < side,
                    0 <= vz < side,
            ;
        }
        assert forall|vx: int, vz: int| 0 <= vx < CHUNK_SIZE && 0 <= vz < CHUNK_SIZE implies
            #[trigger] quad_indexed(indices@, vx, vz) by {
            vstd::arithmetic::div_mod::lemma_fundamental_div_mod_converse(
                vx * (CHUNK_SIZE as int) + vz,
                CHUNK_SIZE as int,
                vx,
                vz,
            );
            assert(0 <= vx * (CHUNK_SIZE as int) + vz < (CHUNK_SIZE as int) * (CHUNK_SIZE as int))
                by (nonlinear_arith)
                requires
                    0 <= vx < CHUNK_SIZE,
                    0 <= vz < CHUNK_SIZE,
            ;
        }
    }
    MeshData { heights, normals, uvs, real_positions, indices }
}

} // verus!
