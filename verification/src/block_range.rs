//! Files of archived blocks: each holds a range of blocks, and its key says
//! which.

use crate::text::{chars_of, decimal_u64, read_u64, spells, split, split_bounds};
use vstd::prelude::*;
use vstd::string::StrSliceExecFns;

verus! {

/// The first piece of the key of every file of blocks.
pub const BLOCKS_PREFIX: &'static str = "replica_cmds";

/// A file of blocks, as its key describes it:
/// `replica_cmds/<checkpoint>/<date>/<first block>-<last block>`.
#[derive(Debug, PartialEq, Eq)]
pub struct BlockRange {
    /// The checkpoint under which the file is kept.
    pub checkpoint: String,
    /// The date under which the file is kept.
    pub date: String,
    /// The number of the first block of the file.
    pub start_block: u64,
    /// The number of the last block of the file.
    pub end_block: u64,
    /// The key of the file, whole.
    pub s3_key: String,
}

/// The mathematical content of a [`BlockRange`], field by field.
pub struct BlockRangeView {
    pub checkpoint: Seq<char>,
    pub date: Seq<char>,
    pub start_block: u64,
    pub end_block: u64,
    pub s3_key: Seq<char>,
}

impl View for BlockRange {
    type V = BlockRangeView;

    open spec fn view(&self) -> BlockRangeView {
        BlockRangeView {
            checkpoint: self.checkpoint@,
            date: self.date@,
            start_block: self.start_block,
            end_block: self.end_block,
            s3_key: self.s3_key@,
        }
    }
}

impl Clone for BlockRange {
    fn clone(&self) -> (r: Self)
        ensures
            r == *self,
    {
        BlockRange {
            checkpoint: self.checkpoint.clone(),
            date: self.date.clone(),
            start_block: self.start_block,
            end_block: self.end_block,
            s3_key: self.s3_key.clone(),
        }
    }
}

/// The range that a key describes. The slashes cut the key into exactly
/// four pieces, of which the first is the prefix, the second the
/// checkpoint and the third the date; a hyphen cuts the fourth into exactly
/// two numbers, the first and the last block. Any other key describes
/// nothing.
pub open spec fn range_of_key(key: Seq<char>) -> Option<BlockRangeView> {
    let parts = split(key, '/');
    if parts.len() == 4 && parts[0] == BLOCKS_PREFIX@ {
        let blocks = split(parts[3], '-');
        if blocks.len() == 2 {
            match (decimal_u64(blocks[0]), decimal_u64(blocks[1])) {
                (Some(start_block), Some(end_block)) => Some(
                    BlockRangeView {
                        checkpoint: parts[1],
                        date: parts[2],
                        start_block,
                        end_block,
                        s3_key: key,
                    },
                ),
                _ => None,
            }
        } else {
            None
        }
    } else {
        None
    }
}

impl BlockRange {
    /// Reads a range from the key of its file, such as
    /// `replica_cmds/1704067200/20240101/830000000-830010000`.
    pub fn from_s3_key(key: &str) -> (r: Option<BlockRange>)
        ensures
            match r {
                Some(range) => range_of_key(key@) == Some(range@),
                None => range_of_key(key@) is None,
            },
    {
        let chars = chars_of(key);
        assert(chars@.subrange(0, chars@.len() as int) =~= key@);
        let parts = split_bounds(&chars, 0, chars.len(), '/');
        if parts.len() != 4 {
            return None;
        }
        let prefix = chars_of(BLOCKS_PREFIX);
        if !spells(&chars, parts[0].0, parts[0].1, &prefix) {
            return None;
        }
        let blocks = split_bounds(&chars, parts[3].0, parts[3].1, '-');
        if blocks.len() != 2 {
            return None;
        }
        let start_block = match read_u64(&chars, blocks[0].0, blocks[0].1) {
            Some(number) => number,
            None => {
                return None;
            },
        };
        let end_block = match read_u64(&chars, blocks[1].0, blocks[1].1) {
            Some(number) => number,
            None => {
                return None;
            },
        };
        Some(
            BlockRange {
                checkpoint: key.substring_char(parts[1].0, parts[1].1).to_owned(),
                date: key.substring_char(parts[2].0, parts[2].1).to_owned(),
                start_block,
                end_block,
                s3_key: key.to_owned(),
            },
        )
    }

    /// Whether the file holds the block with this number.
    pub fn contains(&self, block: u64) -> (r: bool)
        ensures
            r == (self.start_block <= block <= self.end_block),
    {
        self.start_block <= block && block <= self.end_block
    }
}

} // verus!
