use vstd::prelude::*;

use hilbert_index::ToHilbertIndex;

verus! {

/// Order of the Hilbert curve used for node identity: it walks the full
/// 2^26 x 2^26 pixel grid of the identity zoom.
pub const HILBERT_ORDER: u32 = 26;

/// What `hilbert_index` assigns to a cell of the 2^26 x 2^26 grid: the
/// position of the cell along the 2-dimensional Hilbert curve of order 26.
pub uninterp spec fn hilbert_of(x: nat, y: nat) -> nat;

/// Relies on `hilbert_index::ToHilbertIndex::to_hilbert_index` for
/// `[usize; 2]`: Butz's algorithm mapping a grid cell to its Hilbert-curve
/// index.  Its bit loop reads only the low 26 bits of each component, and
/// builds the index out of 26 two-bit groups, so the call is total and the
/// result lies below 2^52.
#[verifier::external_body]
fn hilbert_index_order26(x: u32, y: u32) -> (r: u64)
    ensures
        r as nat == hilbert_of((x as nat) % 0x400_0000, (y as nat) % 0x400_0000),
        r < 0x10_0000_0000_0000u64,
{
    let h = [x as usize, y as usize].to_hilbert_index(26);
    h as u64
}

/// The node identity of an identity-zoom pixel cell: its Hilbert index,
/// truncated to 32 bits.
pub open spec fn spec_node_id_of_cell(px: u32, py: u32) -> u32 {
    (hilbert_of((px as nat) % 0x400_0000, (py as nat) % 0x400_0000) % 0x1_0000_0000) as u32
}

/// The canonical integer identity of an identity-zoom pixel cell: the cell
/// mapped through the order-26 Hilbert curve, truncated to 32 bits.  Total
/// for every cell; two positions that quantize to the same cell receive the
/// same identity, because the identity is computed from the cell alone.
pub fn node_id_of_cell(px: u32, py: u32) -> (r: u32)
    ensures
        r == spec_node_id_of_cell(px, py),
{
    let h = hilbert_index_order26(px, py);
    let r = #[verifier::truncate] (h as u32);
    proof {
        assert(((h as u32) as u64) == h % 0x1_0000_0000u64) by (bit_vector);
    }
    r
}

/// Node identity is a pure function of the identity-zoom pixel cell: any
/// two positions whose projections land in the same cell receive the same
/// identity, whatever source tile they came from.
pub proof fn lemma_same_cell_same_id(cell1: (u32, u32), cell2: (u32, u32))
    requires
        cell1 == cell2,
    ensures
        spec_node_id_of_cell(cell1.0, cell1.1) == spec_node_id_of_cell(cell2.0, cell2.1),
{
}

} // verus!
