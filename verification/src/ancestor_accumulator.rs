//! The ancestors of the head block, gathered as they are asked for.
//!
//! The accumulator knows the roots of the ancestors of the head down to some
//! slot. A block at or above that slot is an ancestor exactly if its root is
//! known. For a block below it, older ancestors must be read, one by one from
//! the newest to the oldest, until the slot of the block is passed; reading
//! them is not done here: each one that was read is handed to the accumulator,
//! which says whether the question is answered.

use vstd::prelude::*;
use crate::encoding::array_eq;

verus! {

/// The number of ancestors that are read at first: five epochs of the main
/// network.
pub const INITIAL_ANCESTORS: usize = 64 * 5;

/// Why the accumulator gives no answer.
#[derive(Debug, Clone, Copy, PartialEq, Eq)]
pub enum Error {
    /// The block is of a later slot than the head.
    SlotTooHigh { slot: u64, head: u64 },
    /// The ancestors of the head cannot be read.
    UnableToCreateAncestorRoots,
}

/// The known ancestors of a head block.
#[derive(Debug, PartialEq, Eq)]
pub struct AncestorAccumulator {
    /// The roots of the known ancestors, each once.
    pub ancestors: Vec<[u8; 32]>,
    /// The slot of the oldest known ancestor; the slot of the head where none
    /// is known.
    pub lowest_slot: u64,
    /// The root and the slot of the head.
    pub head: ([u8; 32], u64),
}

/// What is known of whether a block is an ancestor of the head, without
/// reading more ancestors: an error for a block later than the head; yes for
/// the head itself; for another block at or above the lowest known slot,
/// whether its root is known; and nothing for an older block.
pub open spec fn spec_contains(
    ancestors: Seq<[u8; 32]>,
    lowest_slot: u64,
    head: ([u8; 32], u64),
    block_root: [u8; 32],
    block_slot: u64,
) -> Result<Option<bool>, Error> {
    if block_slot > head.1 {
        Err(Error::SlotTooHigh { slot: block_slot, head: head.1 })
    } else if block_root == head.0 {
        Ok(Some(true))
    } else if block_slot >= lowest_slot {
        Ok(Some(ancestors.contains(block_root)))
    } else {
        Ok(None)
    }
}

impl AncestorAccumulator {
    /// No root is held twice.
    pub open spec fn well_formed(&self) -> bool {
        self.ancestors@.no_duplicates()
    }

    /// The accumulator of a head of which no ancestor is known yet.
    pub fn new(head_root: [u8; 32], head_slot: u64) -> (r: Self)
        ensures
            r.ancestors@.len() == 0,
            r.lowest_slot == head_slot,
            r.head == (head_root, head_slot),
            r.well_formed(),
    {
        AncestorAccumulator {
            ancestors: Vec::new(),
            lowest_slot: head_slot,
            head: (head_root, head_slot),
        }
    }

    /// Whether the root is that of a known ancestor.
    pub fn is_known(&self, root: &[u8; 32]) -> (r: bool)
        ensures
            r == self.ancestors@.contains(*root),
    {
        let mut i: usize = 0;
        while i < self.ancestors.len()
            invariant
                i <= self.ancestors@.len(),
                forall|j: int| 0 <= j < i ==> self.ancestors@[j] != *root,
            decreases self.ancestors@.len() - i,
        {
            if array_eq(&self.ancestors[i], root) {
                return true;
            }
            i += 1;
        }
        false
    }

    /// Whether the block is an ancestor of the head, as far as the known
    /// ancestors tell; `None` where older ancestors must be read, each of which
    /// is then handed to `observe`.
    pub fn contains(&self, block_root: [u8; 32], block_slot: u64) -> (r: Result<
        Option<bool>,
        Error,
    >)
        ensures
            r == spec_contains(
                self.ancestors@,
                self.lowest_slot,
                self.head,
                block_root,
                block_slot,
            ),
    {
        if block_slot > self.head.1 {
            Err(Error::SlotTooHigh { slot: block_slot, head: self.head.1 })
        } else if array_eq(&block_root, &self.head.0) {
            Ok(Some(true))
        } else if block_slot >= self.lowest_slot {
            Ok(Some(self.is_known(&block_root)))
        } else {
            Ok(None)
        }
    }

    /// Takes in the next older ancestor that was read, `None` where there is
    /// none left, and says whether the block in question is an ancestor.
    ///
    /// Where nothing is left, or the ancestor is older than the block, the
    /// block is no ancestor, and the accumulator stays as it is. Any other
    /// ancestor becomes known, and its slot the lowest known; the block is an
    /// ancestor if it is that one, and else the next must be read.
    pub fn observe(
        &mut self,
        block_root: [u8; 32],
        block_slot: u64,
        ancestor: Option<([u8; 32], u64)>,
    ) -> (r: Option<bool>)
        requires
            old(self).well_formed(),
        ensures
            final(self).well_formed(),
            final(self).head == old(self).head,
            match ancestor {
                Some((root, slot)) if slot >= block_slot => {
                    &&& final(self).ancestors@.to_set() == old(self).ancestors@.to_set().insert(
                        root,
                    )
                    &&& final(self).lowest_slot == slot
                    &&& r == if root == block_root && slot == block_slot {
                        Some(true)
                    } else {
                        None::<bool>
                    }
                },
                _ => *final(self) == *old(self) && r == Some(false),
            },
    {
        match ancestor {
            None => Some(false),
            Some((root, slot)) => {
                if slot < block_slot {
                    return Some(false);
                }
                if !self.is_known(&root) {
                    self.ancestors.push(root);
                    assert(self.ancestors@.to_set() =~= old(self).ancestors@.to_set().insert(root))
                        by {
                        assert forall|x: [u8; 32]|
                            self.ancestors@.contains(x) <==> (old(self).ancestors@.contains(x) || x
                                == root) by {
                            if self.ancestors@.contains(x) {
                                let k = choose|k: int|
                                    0 <= k < self.ancestors@.len() && self.ancestors@[k] == x;
                                if k < old(self).ancestors@.len() {
                                    assert(old(self).ancestors@[k] == x);
                                }
                            }
                            if old(self).ancestors@.contains(x) {
                                let k = choose|k: int|
                                    0 <= k < old(self).ancestors@.len() && old(self).ancestors@[k]
                                        == x;
                                assert(self.ancestors@[k] == x);
                            }
                            assert(self.ancestors@[old(self).ancestors@.len() as int] == root);
                        }
                    }
                } else {
                    assert(self.ancestors@.to_set() =~= old(self).ancestors@.to_set().insert(root));
                }
                self.lowest_slot = slot;
                if array_eq(&root, &block_root) && slot == block_slot {
                    Some(true)
                } else {
                    None
                }
            },
        }
    }
}

} // verus!
