use vstd::prelude::*;

verus! {

/// A lookup constraint gate, parameterized by the number of coordinate copies
/// and the length of the list it selects from. When satisfied, this gate
/// guarantees, for each copy independently, that the wire in its claimed
/// element slot equals the wire in the list-item slot selected by the value
/// of its access-index slot.
///
/// The wire layout packs each copy contiguously in a block of `length + 2`
/// inputs: first the access-index slot, then the claimed-element slot, then
/// the `length` list-item slots.
#[derive(Clone, Copy, PartialEq, Eq, Structural, Debug)]
pub struct RandomAccessGate {
    pub copies: usize,
    pub length: usize,
}

/// Input offset of the access-index slot of copy `copy`.
pub open spec fn access_index_offset(length: int, copy: int) -> int {
    copy * (length + 2)
}

/// Input offset of the claimed-element slot of copy `copy`.
pub open spec fn claimed_element_offset(length: int, copy: int) -> int {
    copy * (length + 2) + 1
}

/// Input offset of the list-item slot at position `i` of copy `copy`.
pub open spec fn list_item_offset(length: int, i: int, copy: int) -> int {
    copy * (length + 2) + 2 + i
}

/// The block of offsets of one copy lies within its gate's wire count.
pub proof fn lemma_copy_block_in_range(copies: int, length: int, copy: int)
    requires
        0 <= copy < copies,
        0 <= length,
        copies * (length + 2) <= usize::MAX,
    ensures
        0 <= copy * (length + 2),
        copy * (length + 2) + length + 2 <= copies * (length + 2),
{
    assert(0 <= copy * (length + 2)) by (nonlinear_arith)
        requires
            0 <= copy,
            0 <= length,
    ;
    assert(copy * (length + 2) + length + 2 == (copy + 1) * (length + 2)) by (nonlinear_arith);
    assert((copy + 1) * (length + 2) <= copies * (length + 2)) by (nonlinear_arith)
        requires
            copy + 1 <= copies,
            0 <= length,
    ;
}

impl RandomAccessGate {
    /// Every one of this gate's wire offsets fits in `usize`.
    pub open spec fn wf(self) -> bool {
        (self.copies as int) * (self.length + 2) <= usize::MAX
    }

    /// A gate sized for `copies` coordinate copies of a list of `length`
    /// items.
    pub fn new(copies: usize, length: usize) -> (g: RandomAccessGate)
        requires
            copies * (length + 2) <= usize::MAX,
        ensures
            g == (RandomAccessGate { copies, length }),
            g.wf(),
    {
        RandomAccessGate { copies, length }
    }

    /// Offset of the access-index slot of copy `copy`.
    pub fn wire_access_index(&self, copy: usize) -> (off: usize)
        requires
            copy < self.copies,
            self.wf(),
        ensures
            off as int == access_index_offset(self.length as int, copy as int),
    {
        proof {
            lemma_copy_block_in_range(self.copies as int, self.length as int, copy as int);
        }
        copy * (self.length + 2)
    }

    /// Offset of the claimed-element slot of copy `copy`.
    pub fn wire_claimed_element(&self, copy: usize) -> (off: usize)
        requires
            copy < self.copies,
            self.wf(),
        ensures
            off as int == claimed_element_offset(self.length as int, copy as int),
    {
        proof {
            lemma_copy_block_in_range(self.copies as int, self.length as int, copy as int);
        }
        copy * (self.length + 2) + 1
    }

    /// Offset of the list-item slot at position `i` of copy `copy`.
    pub fn wire_list_item(&self, i: usize, copy: usize) -> (off: usize)
        requires
            i < self.length,
            copy < self.copies,
            self.wf(),
        ensures
            off as int == list_item_offset(self.length as int, i as int, copy as int),
    {
        proof {
            lemma_copy_block_in_range(self.copies as int, self.length as int, copy as int);
        }
        copy * (self.length + 2) + 2 + i
    }
}

} // verus!
