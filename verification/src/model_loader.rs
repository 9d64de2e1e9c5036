//! Turning an indexed mesh into triangles.

use vstd::prelude::*;

verus! {

/// A point of a mesh: three coordinates of whatever kind the mesh is in.
pub type Vertex<T> = [T; 3];

/// Vertex `v` of a mesh whose coordinates lie one after the other.
pub open spec fn vertex_spec<T>(positions: Seq<T>, v: int) -> Seq<T> {
    seq![positions[3 * v], positions[3 * v + 1], positions[3 * v + 2]]
}

/// Every index names one of the whole vertices that `positions` holds.
pub open spec fn indices_valid(positions_len: int, indices: Seq<u32>) -> bool {
    forall|k: int| 0 <= k < indices.len() ==> (#[trigger] indices[k] as int) < positions_len / 3
}

fn vertex<T: Copy>(positions: &[T], v: usize) -> (p: Vertex<T>)
    requires
        v < positions@.len() / 3,
    ensures
        p@ == vertex_spec(positions@, v as int),
{
    let len = positions.len();
    assert(3 * v + 2 < len);
    let p = [positions[3 * v], positions[3 * v + 1], positions[3 * v + 2]];
    proof {
        assert(p@ =~= vertex_spec(positions@, v as int));
    }
    p
}

/// The triangles of a mesh: triangle `i` has as corners the vertices that
/// the indices `3i`, `3i + 1` and `3i + 2` name; indices left over at the end
/// make no triangle.  `None` where an index names no vertex.
pub fn load_geometry<T: Copy>(positions: &[T], indices: &[u32]) -> (triangles: Option<
    Vec<[Vertex<T>; 3]>,
>)
    ensures
        triangles is Some <==> indices_valid(
            positions@.len() as int,
            indices@.take((indices@.len() / 3 * 3) as int),
        ),
        triangles matches Some(ts) ==> {
            &&& ts@.len() == indices@.len() / 3
            &&& forall|i: int, c: int|
                0 <= i < ts@.len() && 0 <= c < 3 ==> (#[trigger] ts@[i]@[c])@ == vertex_spec(
                    positions@,
                    indices@[3 * i + c] as int,
                )
        },
{
    let count = indices.len() / 3;
    let vertices = positions.len() / 3;
    let ghost used = indices@.take((count * 3) as int);
    let mut ts: Vec<[Vertex<T>; 3]> = Vec::new();
    let mut i: usize = 0;
    while i < count
        invariant
            i <= count,
            count == indices@.len() / 3,
            vertices == positions@.len() / 3,
            used == indices@.take((count * 3) as int),
            indices_valid(positions@.len() as int, indices@.take((3 * i) as int)),
            ts@.len() == i,
            forall|j: int, c: int|
                0 <= j < ts@.len() && 0 <= c < 3 ==> (#[trigger] ts@[j]@[c])@ == vertex_spec(
                    positions@,
                    indices@[3 * j + c] as int,
                ),
        decreases count - i,
    {
        assert(3 * i + 2 < indices.len());
        let a = indices[3 * i] as usize;
        let b = indices[3 * i + 1] as usize;
        let c = indices[3 * i + 2] as usize;
        if a >= vertices || b >= vertices || c >= vertices {
            proof {
                let bad = if a >= vertices {
                    3 * i
                } else if b >= vertices {
                    3 * i + 1
                } else {
                    3 * i + 2
                };
                assert(used[bad as int] == indices@[bad as int]);
            }
            return None;
        }
        let t = [vertex(positions, a), vertex(positions, b), vertex(positions, c)];
        ts.push(t);
        proof {
            let before = indices@.take((3 * i) as int);
            let after = indices@.take((3 * (i + 1)) as int);
            assert forall|k: int| 0 <= k < after.len() implies (#[trigger] after[k] as int)
                < positions@.len() / 3 by {
                if k < 3 * i {
                    assert(before[k] == after[k]);
                }
            }
        }
        i += 1;
    }
    Some(ts)
}

} // verus!
