//! Merging the index lists of the models of one mesh file.
use vstd::prelude::*;

verus! {

/// Why a model's indices cannot be merged.
#[derive(PartialEq, Eq, Structural, Clone, Copy, Debug)]
pub enum MeshError {
    /// A shifted index does not fit in a `u32`.
    IndexOverflow,
}

/// Every index of `part`, shifted by `base`, fits in a `u32`.
pub open spec fn shift_fits(part: Seq<u32>, base: u32) -> bool {
    forall|j: int| 0 <= j < part.len() ==> part[j] + base <= u32::MAX
}

/// Appends the indices of one model to `merged`, each shifted by `base`, the
/// number of vertices merged before this model. Fails with `IndexOverflow`, and
/// leaves `merged` unchanged, if a shifted index does not fit in a `u32`.
pub fn append_indices(merged: &mut Vec<u32>, base: u32, part: &Vec<u32>) -> (r: Result<(), MeshError>)
    ensures
        shift_fits(part@, base) ==> {
            &&& r is Ok
            &&& final(merged)@.len() == old(merged)@.len() + part@.len()
            &&& forall|i: int| 0 <= i < old(merged)@.len() ==> #[trigger] final(merged)@[i] == old(merged)@[i]
            &&& forall|j: int|
                0 <= j < part@.len() ==> #[trigger] final(merged)@[old(merged)@.len() + j] == part@[j] + base
        },
        !shift_fits(part@, base) ==> r == Err::<(), MeshError>(MeshError::IndexOverflow) && final(merged)@
            == old(merged)@,
{
    let mut k: usize = 0;
    while k < part.len()
        invariant
            k <= part@.len(),
            forall|j: int| 0 <= j < k ==> part@[j] + base <= u32::MAX,
        decreases part@.len() - k,
    {
        if part[k] > u32::MAX - base {
            return Err(MeshError::IndexOverflow);
        }
        k = k + 1;
    }
    let ghost start = merged@;
    let mut j: usize = 0;
    while j < part.len()
        invariant
            shift_fits(part@, base),
            j <= part@.len(),
            merged@.len() == start.len() + j,
            forall|i: int| 0 <= i < start.len() ==> #[trigger] merged@[i] == start[i],
            forall|i: int| 0 <= i < j ==> #[trigger] merged@[start.len() + i] == part@[i] + base,
        decreases part@.len() - j,
    {
        merged.push(part[j] + base);
        j = j + 1;
    }
    Ok(())
}

} // verus!
