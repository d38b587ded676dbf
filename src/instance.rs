//! Per-instance uniform slots.
//!
//! Many entities share one pipeline and one physical buffer; entity `i` of a
//! frame owns the slot that starts at byte `i * stride`, where the stride is
//! the record size rounded up to the device's offset alignment.
use vstd::prelude::*;

verus! {

/// The first multiple of `alignment` that is at least `value`.
pub open spec fn next_multiple(value: int, alignment: int) -> int {
    if value % alignment == 0 {
        value
    } else {
        value + (alignment - value % alignment)
    }
}

/// Rounds `value` up to a multiple of `alignment`: `None` if `alignment` is zero
/// or the result does not fit in a `u64`.
pub fn align_to(value: u64, alignment: u64) -> (r: Option<u64>)
    ensures
        alignment == 0 ==> r is None,
        alignment > 0 ==> match r {
            Some(v) => v == next_multiple(value as int, alignment as int),
            None => next_multiple(value as int, alignment as int) > u64::MAX,
        },
{
    if alignment == 0 {
        return None;
    }
    let rem = value % alignment;
    if rem == 0 {
        Some(value)
    } else {
        let pad = alignment - rem;
        if value > u64::MAX - pad {
            None
        } else {
            Some(value + pad)
        }
    }
}

/// Why an instance layout cannot be made.
#[derive(PartialEq, Eq, Structural, Clone, Copy, Debug)]
pub enum LayoutError {
    /// The record has no bytes.
    EmptyRecord,
    /// The alignment is zero.
    ZeroAlignment,
    /// The aligned stride, or the whole buffer, does not fit in a `u64`.
    TooLarge,
}

/// The placement of per-instance records in a shared buffer.
#[derive(PartialEq, Eq, Structural, Clone, Copy, Debug)]
pub struct InstanceLayout {
    /// Bytes of one record.
    pub record_size: u64,
    /// The device's minimum offset alignment.
    pub alignment: u64,
    /// Bytes from one slot to the next.
    pub stride: u64,
    /// The number of slots.
    pub capacity: usize,
}

impl InstanceLayout {
    pub open spec fn wf(self) -> bool {
        &&& self.record_size > 0
        &&& self.alignment > 0
        &&& self.stride == next_multiple(self.record_size as int, self.alignment as int)
        &&& self.capacity * self.stride <= u64::MAX
    }

    /// The byte offset of slot `i`.
    pub open spec fn offset_of(self, i: int) -> int {
        i * self.stride
    }

    /// The error that `new` meets on these arguments, if any.
    pub open spec fn new_error(record_size: u64, alignment: u64, capacity: usize) -> Option<LayoutError> {
        if record_size == 0 {
            Some(LayoutError::EmptyRecord)
        } else if alignment == 0 {
            Some(LayoutError::ZeroAlignment)
        } else if next_multiple(record_size as int, alignment as int) > u64::MAX || capacity
            * next_multiple(record_size as int, alignment as int) > u64::MAX {
            Some(LayoutError::TooLarge)
        } else {
            None
        }
    }

    /// The layout of `capacity` slots for records of `record_size` bytes at
    /// offsets aligned to `alignment`.
    pub fn new(record_size: u64, alignment: u64, capacity: usize) -> (r: Result<Self, LayoutError>)
        ensures
            match Self::new_error(record_size, alignment, capacity) {
                Some(e) => r == Err::<Self, LayoutError>(e),
                None => r matches Ok(l) && l.wf() && l.record_size == record_size && l.alignment
                    == alignment && l.capacity == capacity,
            },
    {
        if record_size == 0 {
            return Err(LayoutError::EmptyRecord);
        }
        if alignment == 0 {
            return Err(LayoutError::ZeroAlignment);
        }
        let stride = match align_to(record_size, alignment) {
            Some(s) => s,
            None => {
                return Err(LayoutError::TooLarge);
            },
        };
        if capacity as u64 > 0 && stride > u64::MAX / (capacity as u64) {
            proof {
                let c = capacity as int;
                let q = u64::MAX as int / c;
                assert(c * stride > u64::MAX) by (nonlinear_arith)
                    requires
                        c > 0,
                        stride > q,
                        q == u64::MAX as int / c,
                {
                }
            }
            return Err(LayoutError::TooLarge);
        }
        proof {
            if capacity > 0 {
                let c = capacity as int;
                let q = u64::MAX as int / c;
                assert(c * stride <= u64::MAX) by (nonlinear_arith)
                    requires
                        c > 0,
                        stride <= q,
                        q == u64::MAX as int / c,
                {
                }
            }
        }
        Ok(InstanceLayout { record_size, alignment, stride, capacity })
    }

    /// The byte offset of slot `i`.
    pub fn offset(&self, i: usize) -> (r: u64)
        requires
            self.wf(),
            i < self.capacity,
        ensures
            r == self.offset_of(i as int),
    {
        proof {
            self.lemma_offset_fits(i as int);
        }
        (i as u64) * self.stride
    }

    /// The size in bytes of a buffer that holds every slot.
    pub fn buffer_size(&self) -> (r: u64)
        requires
            self.wf(),
        ensures
            r == self.capacity * self.stride,
    {
        (self.capacity as u64) * self.stride
    }

    pub proof fn lemma_offset_fits(self, i: int)
        requires
            self.wf(),
            0 <= i <= self.capacity,
        ensures
            0 <= self.offset_of(i) <= self.capacity * self.stride,
    {
        let c = self.capacity as int;
        let s = self.stride as int;
        assert(0 <= i * s <= c * s) by (nonlinear_arith)
            requires
                0 <= i <= c,
                s >= 0,
        {
        }
    }

    /// Slots do not overlap and start aligned: for slots `i < j`, slot `j`
    /// starts at least one record after slot `i`, every slot starts at a
    /// multiple of the alignment, and every slot ends inside the buffer.
    pub proof fn lemma_slots_disjoint_aligned(self, i: int, j: int)
        requires
            self.wf(),
            0 <= i < j < self.capacity,
        ensures
            self.offset_of(j) - self.offset_of(i) >= self.record_size,
            self.offset_of(i) % (self.alignment as int) == 0,
            self.offset_of(j) % (self.alignment as int) == 0,
            self.offset_of(j) + self.record_size <= self.capacity * self.stride,
    {
        let a = self.alignment as int;
        let r = self.record_size as int;
        let s = self.stride as int;
        let c = self.capacity as int;
        assert(s >= r && s % a == 0) by {
            if r % a != 0 {
                assert((r + (a - r % a)) % a == 0) by (nonlinear_arith)
                    requires
                        a > 0,
                {
                    vstd::arithmetic::div_mod::lemma_mod_adds(r, a - r % a, a);
                    vstd::arithmetic::div_mod::lemma_fundamental_div_mod(r, a);
                }
            }
        }
        assert(j * s - i * s >= r) by (nonlinear_arith)
            requires
                0 <= i < j,
                s >= r,
                r >= 0,
        {
            assert((j - i) * s >= s);
        }
        assert((i * s) % a == 0 && (j * s) % a == 0) by (nonlinear_arith)
            requires
                s % a == 0,
                a > 0,
                i >= 0,
                j >= 0,
        {
            vstd::arithmetic::div_mod::lemma_mul_mod_noop_right(i, s, a);
            vstd::arithmetic::div_mod::lemma_mul_mod_noop_right(j, s, a);
        }
        assert(j * s + r <= c * s) by (nonlinear_arith)
            requires
                0 <= j < c,
                0 <= r <= s,
        {
            assert((c - j) * s >= s);
        }
    }
}

} // verus!
