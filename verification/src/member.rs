//! One member of a set: its metadata and its interpolation blocks.

use vstd::prelude::*;

use crate::block::{Block, BlockView};
use crate::text::{chars_string, dec_chars, dec_digits};

verus! {

/// One realisation of a set: open string metadata and the interpolation
/// blocks, indexed by the composite `(pid, flavor_count)` key.
#[derive(Debug)]
pub struct Member {
    /// Open string-keyed metadata carried along with the numeric data.
    pub metadata: Vec<(String, String)>,
    /// The interpolation blocks.
    pub blocks: Vec<Block>,
}

/// The mathematical content of a [`Member`].
#[verifier::ext_equal]
pub struct MemberView {
    pub metadata: Seq<(Seq<char>, Seq<char>)>,
    pub blocks: Seq<BlockView>,
}

impl View for Member {
    type V = MemberView;

    open spec fn view(&self) -> MemberView {
        MemberView {
            metadata: Seq::new(self.metadata@.len(), |i: int| (self.metadata@[i].0@, self.metadata@[i].1@)),
            blocks: Seq::new(self.blocks@.len(), |i: int| self.blocks@[i]@),
        }
    }
}

impl MemberView {
    /// Every block satisfies its shape invariant.
    pub open spec fn well_formed(self) -> bool {
        forall|i: int| 0 <= i < self.blocks.len() ==> (#[trigger] self.blocks[i]).well_formed()
    }
}

impl Member {
    /// The position in the block list of the slice for a discrete quantity
    /// `pid` at `nf` active flavors.
    ///
    /// The block list packs, for each discrete quantity in order, the four
    /// slices for three to six active flavors; hence the domain bounds on
    /// `nf`, and `pid` here is a nonnegative quantity index.
    pub fn block_index(pid: i32, nf: u8) -> (r: usize)
        requires
            0 <= pid,
            3 <= nf <= 6,
            4 * pid + (nf - 3) <= usize::MAX,
        ensures
            r == 4 * pid + (nf - 3),
    {
        let wide: u64 = 4 * (pid as u64) + (nf as u64 - 3);
        wide as usize
    }

    /// How many blocks the member holds.
    pub fn block_count(&self) -> (r: usize)
        ensures
            r == self@.blocks.len(),
    {
        self.blocks.len()
    }

    /// The block at position `i`.
    pub fn block_at(&self, i: usize) -> (r: &Block)
        requires
            i < self@.blocks.len(),
        ensures
            r@ == self@.blocks[i as int],
    {
        &self.blocks[i]
    }

    /// A short description of the member, for diagnostics.
    pub fn describe(&self) -> (r: String)
        ensures
            r@ == "Member("@ + dec_digits(self@.metadata.len()) + " metadata entries, "@
                + dec_digits(self@.blocks.len()) + " blocks)"@,
    {
        let mut r = String::from_str("Member(");
        let meta = chars_string(&dec_chars(self.metadata.len() as u64));
        r.append(meta.as_str());
        r.append(" metadata entries, ");
        let blocks = chars_string(&dec_chars(self.blocks.len() as u64));
        r.append(blocks.as_str());
        r.append(" blocks)");
        r
    }
}

} // verus!
