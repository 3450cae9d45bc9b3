//! Editing the blocks of a note as its window asks: new text, new blocks
//! after a line, ticking and unticking, deleting a line or a selection,
//! turning a to-do item back into text, and moving a line.
use vstd::prelude::*;

use crate::model::{empty_block, with_blocks, Block, BlockModel, BlockType, Note, NoteModel};
use crate::text::str_chars;

verus! {

/// Whether a text block's new text is exactly `- [ ]`, which turns the block
/// into an empty to-do item.
pub open spec fn is_todo_trigger(text: Seq<char>) -> bool {
    text == seq!['-', ' ', '[', ' ', ']']
}

/// A block after its text was edited to `text`.
pub open spec fn edited_block(b: BlockModel, text: Seq<char>) -> BlockModel {
    if b.block_type == BlockType::Text && is_todo_trigger(text) {
        BlockModel { block_type: BlockType::Todo, content: seq![], checked: false, ..b }
    } else {
        BlockModel { content: text, ..b }
    }
}

/// Whether `index` names a block of `n`.
pub open spec fn has_block(n: NoteModel, index: int) -> bool {
    0 <= index < n.blocks.len()
}

/// `n` with block `index` replaced by `b`.
pub open spec fn with_block(n: NoteModel, index: int, b: BlockModel) -> NoteModel {
    with_blocks(n, n.blocks.update(index, b))
}

/// The lines that a delete removes, as a first and last index: the
/// selection from `sel_start` to `sel_end` when both are set (not negative)
/// and differ, else the line `index`.
pub open spec fn delete_range(index: int, sel_start: int, sel_end: int) -> (int, int) {
    if sel_start >= 0 && sel_end >= 0 && sel_start != sel_end {
        if sel_start <= sel_end {
            (sel_start, sel_end)
        } else {
            (sel_end, sel_start)
        }
    } else {
        (index, index)
    }
}

/// Whether a delete of these lines can run on `len` blocks: the count fits
/// in `i32`, and when it leaves blocks the lines lie within the note.
pub open spec fn delete_fits(len: int, index: int, sel_start: int, sel_end: int) -> bool {
    let (lo, hi) = delete_range(index, sel_start, sel_end);
    let count = hi - lo + 1;
    &&& len <= i32::MAX
    &&& count <= i32::MAX
    &&& (count >= len || (lo >= 0 && lo + count <= len))
}

/// `x` brought into `lo..=hi`.
pub open spec fn clamp(x: int, lo: int, hi: int) -> int {
    if x < lo {
        lo
    } else if x > hi {
        hi
    } else {
        x
    }
}

fn todo_trigger(text: &str) -> (r: bool)
    ensures
        r == is_todo_trigger(text@),
{
    let v = str_chars(text);
    let r = v.len() == 5 && v[0] == '-' && v[1] == ' ' && v[2] == '[' && v[3] == ' ' && v[4]
        == ']';
    proof {
        if r {
            assert(v@ =~= seq!['-', ' ', '[', ' ', ']']);
        }
    }
    r
}

/// Editing a block to a text that is not the to-do trigger for it keeps
/// its id, kind and tick, and gives it exactly that text; the trigger turns a
/// text block into an empty unticked to-do item under the same id.
pub proof fn edit_keeps_kind_and_tick(b: BlockModel, text: Seq<char>)
    ensures
        edited_block(b, text).id == b.id,
        !(b.block_type == BlockType::Text && text == seq!['-', ' ', '[', ' ', ']']) ==> {
            &&& edited_block(b, text).content == text
            &&& edited_block(b, text).checked == b.checked
            &&& edited_block(b, text).block_type == b.block_type
        },
        (b.block_type == BlockType::Text && text == seq!['-', ' ', '[', ' ', ']']) ==> {
            &&& edited_block(b, text).block_type == BlockType::Todo
            &&& edited_block(b, text).content.len() == 0
            &&& !edited_block(b, text).checked
        },
{
}

/// A selection deletes the same lines whichever way it was made: from the
/// smaller end to the larger, `|sel_end - sel_start| + 1` lines.
pub proof fn selection_delete_is_symmetric(index: int, sel_start: int, sel_end: int)
    requires
        sel_start >= 0,
        sel_end >= 0,
        sel_start != sel_end,
    ensures
        delete_range(index, sel_start, sel_end) == delete_range(index, sel_end, sel_start),
        delete_range(index, sel_start, sel_end).0 == if sel_start < sel_end {
            sel_start
        } else {
            sel_end
        },
        delete_range(index, sel_start, sel_end).1 - delete_range(index, sel_start, sel_end).0 + 1
            == if sel_start < sel_end {
            sel_end - sel_start + 1
        } else {
            sel_start - sel_end + 1
        },
{
}

/// Without a selection a delete removes exactly line `index`.
pub proof fn single_delete_is_one_line(index: int, sel_start: int, sel_end: int)
    requires
        !(sel_start >= 0 && sel_end >= 0 && sel_start != sel_end),
    ensures
        delete_range(index, sel_start, sel_end) == (index, index),
{
}

impl Note {
    /// Takes block `index` out of the note.
    fn take_block(&mut self, index: usize) -> (b: Block)
        requires
            index < old(self).blocks.len(),
        ensures
            b == old(self).blocks@[index as int],
            final(self).blocks@ == old(self).blocks@.remove(index as int),
            final(self).id == old(self).id,
            final(self).position == old(self).position,
            final(self).size == old(self).size,
            final(self).always_on_top == old(self).always_on_top,
            final(self).color == old(self).color,
    {
        self.blocks.remove(index)
    }

    /// Puts block `b` back at `index`.
    fn put_block(&mut self, index: usize, b: Block)
        requires
            index <= old(self).blocks.len(),
        ensures
            final(self).blocks@ == old(self).blocks@.insert(index as int, b),
            final(self).id == old(self).id,
            final(self).position == old(self).position,
            final(self).size == old(self).size,
            final(self).always_on_top == old(self).always_on_top,
            final(self).color == old(self).color,
    {
        self.blocks.insert(index, b)
    }

    /// Block `index` now holds `text`. A text block whose new text is
    /// exactly `- [ ]` becomes an empty unticked to-do item instead; tells whether
    /// that happened. An index of no block changes nothing.
    pub fn edit_block(&mut self, index: i32, text: &str) -> (to_todo: bool)
        ensures
            !has_block(old(self)@, index as int) ==> final(self)@ == old(self)@ && !to_todo,
            has_block(old(self)@, index as int) ==> {
                &&& final(self)@ == with_block(
                    old(self)@,
                    index as int,
                    edited_block(old(self)@.blocks[index as int], text@),
                )
                &&& to_todo == (old(self)@.blocks[index as int].block_type == BlockType::Text
                    && is_todo_trigger(text@))
            },
            has_block(old(self)@, index as int) ==> ({
                let b = old(self)@.blocks[index as int];
                let a = final(self)@.blocks[index as int];
                &&& final(self)@.blocks.len() == old(self)@.blocks.len()
                &&& a.id == b.id
                &&& (b.block_type == BlockType::Text && text@ == seq!['-', ' ', '[', ' ', ']'])
                    ==> a.block_type == BlockType::Todo && a.content.len() == 0 && !a.checked
                &&& !(b.block_type == BlockType::Text && text@ == seq!['-', ' ', '[', ' ', ']'])
                    ==> a.content == text@ && a.block_type == b.block_type && a.checked
                    == b.checked
            }),
    {
        if index < 0 || index as usize >= self.blocks.len() {
            return false;
        }
        let i = index as usize;
        let ghost before = self@;
        let mut b = self.take_block(i);
        let to_todo = b.block_type == BlockType::Text && todo_trigger(text);
        if to_todo {
            b.block_type = BlockType::Todo;
            b.content = String::new();
            b.checked = false;
        } else {
            b.content = String::from_str(text);
        }
        self.put_block(i, b);
        assert(self@.blocks =~= before.blocks.update(i as int, edited_block(before.blocks[i as int], text@)));
        to_todo
    }

    /// Inserts an empty block of the given kind with id `id` after line
    /// `index` (at the front for `-1`); returns the line of the new block.
    pub fn insert_block_after(&mut self, index: i32, block_type: BlockType, id: String) -> (at: i32)
        requires
            -1 <= index < i32::MAX,
            index + 1 <= old(self).blocks.len(),
        ensures
            at == index + 1,
            final(self)@ == with_blocks(
                old(self)@,
                old(self)@.blocks.insert(
                    at as int,
                    BlockModel { block_type, ..empty_block(id@) },
                ),
            ),
    {
        let at = index + 1;
        let ghost before = self@;
        let b = Block { id, block_type, content: String::new(), checked: false };
        self.put_block(at as usize, b);
        assert(self@.blocks =~= before.blocks.insert(at as int, b@));
        at
    }

    /// Ticks or unticks block `index`; an index of no block changes nothing.
    pub fn set_block_checked(&mut self, index: i32, value: bool)
        ensures
            !has_block(old(self)@, index as int) ==> final(self)@ == old(self)@,
            has_block(old(self)@, index as int) ==> final(self)@ == with_block(
                old(self)@,
                index as int,
                BlockModel { checked: value, ..old(self)@.blocks[index as int] },
            ),
    {
        if index < 0 || index as usize >= self.blocks.len() {
            return;
        }
        let i = index as usize;
        let ghost before = self@;
        let mut b = self.take_block(i);
        b.checked = value;
        self.put_block(i, b);
        assert(self@.blocks =~= before.blocks.update(
            i as int,
            BlockModel { checked: value, ..before.blocks[i as int] },
        ));
    }

    /// Turns block `index` into an unticked text block with the same content;
    /// an index of no block changes nothing.
    pub fn downgrade_block(&mut self, index: i32)
        ensures
            !has_block(old(self)@, index as int) ==> final(self)@ == old(self)@,
            has_block(old(self)@, index as int) ==> final(self)@ == with_block(
                old(self)@,
                index as int,
                BlockModel {
                    block_type: BlockType::Text,
                    checked: false,
                    ..old(self)@.blocks[index as int]
                },
            ),
    {
        if index < 0 || index as usize >= self.blocks.len() {
            return;
        }
        let i = index as usize;
        let ghost before = self@;
        let mut b = self.take_block(i);
        b.block_type = BlockType::Text;
        b.checked = false;
        self.put_block(i, b);
        assert(self@.blocks =~= before.blocks.update(
            i as int,
            BlockModel { block_type: BlockType::Text, checked: false, ..before.blocks[i as int] },
        ));
    }

    /// Deletes the selected lines when a selection is set (both ends not
    /// negative and different), else line `index`. When that is every line,
    /// the note keeps one empty text block with id `id` and the focus goes to
    /// line 0; else the focus goes to the first line after the deleted ones,
    /// or the last line. Returns the line to focus.
    pub fn delete_blocks(&mut self, index: i32, sel_start: i32, sel_end: i32, id: String) -> (focus: i32)
        requires
            delete_fits(old(self).blocks.len() as int, index as int, sel_start as int, sel_end as int),
        ensures
            ({
                let len = old(self).blocks.len() as int;
                let (lo, hi) = delete_range(index as int, sel_start as int, sel_end as int);
                let count = hi - lo + 1;
                if count >= len {
                    &&& final(self)@ == with_blocks(old(self)@, seq![empty_block(id@)])
                    &&& focus == 0
                } else {
                    &&& final(self)@ == with_blocks(
                        old(self)@,
                        old(self)@.blocks.take(lo) + old(self)@.blocks.skip(lo + count),
                    )
                    &&& focus == clamp(lo, 0, len - count - 1)
                }
            }),
            sel_start >= 0 && sel_end >= 0 && sel_start != sel_end ==> ({
                let len = old(self).blocks.len() as int;
                let first = if sel_start < sel_end { sel_start as int } else { sel_end as int };
                let last = if sel_start < sel_end { sel_end as int } else { sel_start as int };
                &&& last - first + 1 < len ==> final(self)@.blocks == old(self)@.blocks.take(first)
                    + old(self)@.blocks.skip(last + 1)
                    && final(self)@.blocks.len() == len - (last - first + 1)
                &&& last - first + 1 >= len ==> final(self)@.blocks == seq![empty_block(id@)]
            }),
            !(sel_start >= 0 && sel_end >= 0 && sel_start != sel_end) && 1 < old(self).blocks.len()
                ==> final(self)@.blocks == old(self)@.blocks.remove(index as int),
    {
        let (lo, hi) = if sel_start >= 0 && sel_end >= 0 && sel_start != sel_end {
            if sel_start <= sel_end {
                (sel_start, sel_end)
            } else {
                (sel_end, sel_start)
            }
        } else {
            (index, index)
        };
        let count = (hi - lo + 1) as usize;
        let len = self.blocks.len();
        let ghost before = self@;
        if count >= len {
            let mut blocks: Vec<Block> = Vec::new();
            blocks.push(Block { id, block_type: BlockType::Text, content: String::new(), checked: false });
            self.blocks = blocks;
            assert(self@.blocks =~= seq![empty_block(id@)]);
            return 0;
        }
        let start = lo as usize;
        let mut k: usize = 0;
        assert(before.blocks.take(start as int) + before.blocks.skip(start as int) =~= before.blocks);
        assert(self@ == with_blocks(before, before.blocks));
        while k < count
            invariant
                k <= count,
                self.blocks.len() == len - k,
                start + count <= len,
                len == before.blocks.len(),
                self@ == with_blocks(
                    before,
                    before.blocks.take(start as int) + before.blocks.skip(start + k),
                ),
            decreases count - k,
        {
            let ghost cur = self@.blocks;
            let _removed = self.take_block(start);
            proof {
                assert(cur.remove(start as int) =~= before.blocks.take(start as int)
                    + before.blocks.skip(start + k + 1));
            }
            k = k + 1;
            assert(self@.blocks =~= before.blocks.take(start as int) + before.blocks.skip(start + k));
        }
        let last = (len - count) as i32 - 1;
        if lo < 0 {
            0
        } else if lo > last {
            last
        } else {
            lo
        }
    }

    /// Moves line `index` by `rows` lines, kept within the note; returns the
    /// line it moved to, or nothing when the note has fewer than two lines or
    /// the line stays where it is.
    pub fn move_block(&mut self, index: i32, rows: i32) -> (target: Option<i32>)
        requires
            old(self).blocks.len() <= i32::MAX,
            i32::MIN <= index + rows <= i32::MAX,
            old(self).blocks.len() < 2 || 0 <= index < old(self).blocks.len(),
        ensures
            ({
                let len = old(self).blocks.len() as int;
                let t = clamp(index + rows, 0, len - 1);
                if len < 2 || t == index {
                    &&& target is None
                    &&& final(self)@ == old(self)@
                } else {
                    &&& target == Some(t as i32)
                    &&& final(self)@ == with_blocks(
                        old(self)@,
                        old(self)@.blocks.remove(index as int).insert(
                            t,
                            old(self)@.blocks[index as int],
                        ),
                    )
                }
            }),
    {
        let len = self.blocks.len() as i32;
        if len < 2 {
            return None;
        }
        let moved = index + rows;
        let t = if moved < 0 {
            0
        } else if moved > len - 1 {
            len - 1
        } else {
            moved
        };
        if t == index {
            return None;
        }
        let ghost before = self@;
        let b = self.take_block(index as usize);
        self.put_block(t as usize, b);
        assert(self@.blocks =~= before.blocks.remove(index as int).insert(
            t as int,
            before.blocks[index as int],
        ));
        Some(t)
    }
}

} // verus!
