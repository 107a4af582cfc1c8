//! Scene bookkeeping: where a newly loaded model sits in the shared vertex
//! and index buffers.

use vstd::prelude::*;
use crate::components::MeshAllocation;

verus! {

/// The allocation of a model whose indices were appended to the index
/// buffer, which held `before_indices` indices before and `after_indices`
/// after, and whose vertices start at vertex `first_vertex`; the counts are
/// narrowed as the buffers' formats require.
pub fn loaded_mesh_allocation(before_indices: usize, after_indices: usize, first_vertex: usize) -> (m: MeshAllocation)
    requires
        before_indices <= after_indices,
    ensures
        m.index_count == (after_indices - before_indices) as u32,
        m.first_index == before_indices as u32,
        m.first_vertex == first_vertex as i32,
{
    MeshAllocation {
        index_count: (after_indices - before_indices) as u32,
        first_index: before_indices as u32,
        first_vertex: first_vertex as i32,
    }
}

} // verus!
