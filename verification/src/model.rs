//! The note model: blocks of text and to-do items, notes, the application
//! state, and the plain-text form of a note.
use vstd::prelude::*;

use crate::text::{
    chars_to_string, decimal, join_lines, lemma_join_push, line_spans, lines, push_char,
    push_decimal, skip_ws, str_chars, trim_start,
};

verus! {

/// The kind of a block: a paragraph of text or a to-do item.
#[derive(Clone, Copy, Debug, PartialEq, Eq, Structural)]
pub enum BlockType {
    Text,
    Todo,
}

/// One block of a note.
#[derive(Debug)]
pub struct Block {
    pub id: String,
    pub block_type: BlockType,
    pub content: String,
    pub checked: bool,
}

/// The colour of a note.
#[derive(Clone, Copy, Debug, PartialEq, Eq, Structural)]
pub enum NoteColor {
    Yellow,
    White,
    Blue,
}

impl Default for NoteColor {
    fn default() -> (c: Self)
        ensures
            c == NoteColor::Yellow,
    {
        NoteColor::Yellow
    }
}

/// A note: its window geometry, pin state, colour and blocks.
#[derive(Debug)]
pub struct Note {
    pub id: String,
    pub position: (i32, i32),
    pub size: (u32, u32),
    pub always_on_top: bool,
    pub color: NoteColor,
    pub blocks: Vec<Block>,
}

/// Everything that is saved: the notes.
#[derive(Debug)]
pub struct AppState {
    pub notes: Vec<Note>,
}

impl Default for AppState {
    fn default() -> (s: Self)
        ensures
            s.notes@.len() == 0,
    {
        AppState { notes: Vec::new() }
    }
}

impl Clone for Block {
    fn clone(&self) -> (b: Self)
        ensures
            b == *self,
    {
        Block {
            id: self.id.clone(),
            block_type: self.block_type,
            content: self.content.clone(),
            checked: self.checked,
        }
    }
}

impl Clone for Note {
    fn clone(&self) -> (n: Self)
        ensures
            n@ == self@,
    {
        let blocks = self.blocks.clone();
        proof {
            assert forall|i: int| 0 <= i < blocks.len() implies blocks@[i] == self.blocks@[i] by {
                assert(cloned::<Block>(self.blocks[i], blocks[i]));
            }
        }
        let n = Note {
            id: self.id.clone(),
            position: self.position,
            size: self.size,
            always_on_top: self.always_on_top,
            color: self.color,
            blocks,
        };
        assert(n@.blocks =~= self@.blocks);
        n
    }
}

impl Clone for AppState {
    fn clone(&self) -> (s: Self)
        ensures
            s@ == self@,
    {
        let notes = self.notes.clone();
        proof {
            assert forall|i: int| 0 <= i < notes.len() implies notes@[i]@ == self.notes@[i]@ by {
                assert(cloned::<Note>(self.notes[i], notes[i]));
            }
        }
        let s = AppState { notes };
        assert(s@ =~= self@);
        s
    }
}

// ---------------------------------------------------------------------------
// Mathematical views
// ---------------------------------------------------------------------------

/// A block as values.
pub struct BlockModel {
    pub id: Seq<char>,
    pub block_type: BlockType,
    pub content: Seq<char>,
    pub checked: bool,
}

/// A note as values.
pub struct NoteModel {
    pub id: Seq<char>,
    pub position: (i32, i32),
    pub size: (u32, u32),
    pub always_on_top: bool,
    pub color: NoteColor,
    pub blocks: Seq<BlockModel>,
}

impl View for Block {
    type V = BlockModel;

    open spec fn view(&self) -> BlockModel {
        BlockModel {
            id: self.id@,
            block_type: self.block_type,
            content: self.content@,
            checked: self.checked,
        }
    }
}

impl View for Note {
    type V = NoteModel;

    open spec fn view(&self) -> NoteModel {
        NoteModel {
            id: self.id@,
            position: self.position,
            size: self.size,
            always_on_top: self.always_on_top,
            color: self.color,
            blocks: self.blocks@.map_values(|b: Block| b@),
        }
    }
}

impl View for AppState {
    type V = Seq<NoteModel>;

    open spec fn view(&self) -> Seq<NoteModel> {
        self.notes@.map_values(|n: Note| n@)
    }
}

// ---------------------------------------------------------------------------
// Specification of the plain-text form
// ---------------------------------------------------------------------------

/// The id of the block made from line `index` of a text.
pub open spec fn block_id(index: nat) -> Seq<char> {
    seq!['b', 'l', 'o', 'c', 'k', '-'] + decimal(index)
}

/// An empty text block.
pub open spec fn empty_block(id: Seq<char>) -> BlockModel {
    BlockModel { id, block_type: BlockType::Text, content: seq![], checked: false }
}

/// The box of a to-do line: `x` when checked, a space otherwise.
pub open spec fn todo_mark(checked: bool) -> char {
    if checked {
        'x'
    } else {
        ' '
    }
}

/// The line that a block is written as: a text block is its content, a
/// to-do item is `- [ ] ` or `- [x] ` and its content.
pub open spec fn render_block(b: BlockModel) -> Seq<char> {
    match b.block_type {
        BlockType::Text => b.content,
        BlockType::Todo => seq!['-', ' ', '[', todo_mark(b.checked), ']', ' '] + b.content,
    }
}

/// The plain text of a list of blocks: their lines joined by line feeds.
pub open spec fn plain_of(blocks: Seq<BlockModel>) -> Seq<char> {
    join_lines(blocks.map_values(|b: BlockModel| render_block(b)))
}

/// Whether `t` starts with `- [ ] `, `- [x] ` or `- [X] `.
pub open spec fn has_todo_prefix(t: Seq<char>) -> bool {
    &&& t.len() >= 6
    &&& t[0] == '-'
    &&& t[1] == ' '
    &&& t[2] == '['
    &&& (t[3] == ' ' || t[3] == 'x' || t[3] == 'X')
    &&& t[4] == ']'
    &&& t[5] == ' '
}

/// The block that line number `index` of a text becomes: a to-do item when
/// the line, without leading white space, starts with a to-do box, else a
/// text block holding the whole line.
pub open spec fn parse_line(index: nat, line: Seq<char>) -> BlockModel {
    let t = trim_start(line);
    if has_todo_prefix(t) {
        BlockModel {
            id: block_id(index),
            block_type: BlockType::Todo,
            content: t.skip(6),
            checked: t[3] == 'x' || t[3] == 'X',
        }
    } else {
        BlockModel { id: block_id(index), block_type: BlockType::Text, content: line, checked: false }
    }
}

/// The blocks that a text becomes: one per line, or a single empty text
/// block when the text has no line.
pub open spec fn blocks_of_text(text: Seq<char>) -> Seq<BlockModel> {
    let ls = lines(text);
    if ls.len() == 0 {
        seq![empty_block(block_id(0))]
    } else {
        Seq::new(ls.len(), |i: int| parse_line(i as nat, ls[i]))
    }
}

/// A new note as values.
pub open spec fn new_note_model(id: Seq<char>, position: (i32, i32)) -> NoteModel {
    NoteModel {
        id,
        position,
        size: (280, 360),
        always_on_top: false,
        color: NoteColor::Yellow,
        blocks: seq![empty_block(block_id(1))],
    }
}

/// `n` with other blocks and everything else unchanged.
pub open spec fn with_blocks(n: NoteModel, blocks: Seq<BlockModel>) -> NoteModel {
    NoteModel { blocks, ..n }
}

// ---------------------------------------------------------------------------
// Executable code
// ---------------------------------------------------------------------------

/// The id `block-<index>`.
pub fn make_block_id(index: usize) -> (s: String)
    ensures
        s@ == block_id(index as nat),
{
    let mut s = String::new();
    push_char(&mut s, 'b');
    push_char(&mut s, 'l');
    push_char(&mut s, 'o');
    push_char(&mut s, 'c');
    push_char(&mut s, 'k');
    push_char(&mut s, '-');
    push_decimal(&mut s, index as u128);
    assert(s@ =~= block_id(index as nat));
    s
}

/// An empty text block with the given id.
pub fn new_text_block(id: String) -> (b: Block)
    ensures
        b@ == empty_block(id@),
{
    Block { id, block_type: BlockType::Text, content: String::new(), checked: false }
}

/// The block that line `index` of a text becomes; the line is `v[from..to]`.
fn block_of_line(index: usize, v: &Vec<char>, from: usize, to: usize) -> (b: Block)
    requires
        from <= to <= v.len(),
    ensures
        b@ == parse_line(index as nat, v@.subrange(from as int, to as int)),
{
    let ghost line = v@.subrange(from as int, to as int);
    let k = skip_ws(v, from, to);
    let id = make_block_id(index);
    proof {
        assert(trim_start(line) =~= v@.subrange(k as int, to as int));
    }
    if to - k >= 6 && v[k] == '-' && v[k + 1] == ' ' && v[k + 2] == '[' && (v[k + 3] == ' ' || v[k
        + 3] == 'x' || v[k + 3] == 'X') && v[k + 4] == ']' && v[k + 5] == ' ' {
        let content = chars_to_string(v, k + 6, to);
        let checked = v[k + 3] == 'x' || v[k + 3] == 'X';
        proof {
            assert(trim_start(line).skip(6) =~= v@.subrange(k + 6, to as int));
        }
        Block { id, block_type: BlockType::Todo, content, checked }
    } else {
        let content = chars_to_string(v, from, to);
        Block { id, block_type: BlockType::Text, content, checked: false }
    }
}

/// Appends the line that `b` is written as to `out`.
fn push_rendered(out: &mut String, b: &Block)
    ensures
        final(out)@ == old(out)@ + render_block(b@),
{
    let ghost start = out@;
    match b.block_type {
        BlockType::Text => {},
        BlockType::Todo => {
            push_char(out, '-');
            push_char(out, ' ');
            push_char(out, '[');
            push_char(out, if b.checked { 'x' } else { ' ' });
            push_char(out, ']');
            push_char(out, ' ');
        },
    }
    out.append(b.content.as_str());
    assert(out@ =~= start + render_block(b@));
}

impl Note {
    /// A note at `position` with the default size and colour, not pinned, and
    /// one empty text block.
    pub fn new(id: String, position: (i32, i32)) -> (n: Self)
        ensures
            n@ == new_note_model(id@, position),
    {
        let block = new_text_block(make_block_id(1));
        let mut blocks: Vec<Block> = Vec::new();
        blocks.push(block);
        let n = Note {
            id,
            position,
            size: (280, 360),
            always_on_top: false,
            color: NoteColor::default(),
            blocks,
        };
        assert(n@.blocks =~= seq![empty_block(block_id(1))]);
        n
    }

    /// The note as plain text: one line per block, to-do items written as
    /// `- [ ] ` or `- [x] ` before their content.
    pub fn plain_text(&self) -> (s: String)
        ensures
            s@ == plain_of(self@.blocks),
    {
        let ghost rendered = self@.blocks.map_values(|b: BlockModel| render_block(b));
        let mut out = String::new();
        let mut i: usize = 0;
        while i < self.blocks.len()
            invariant
                i <= self.blocks.len(),
                rendered == self@.blocks.map_values(|b: BlockModel| render_block(b)),
                rendered.len() == self.blocks.len(),
                out@ == join_lines(rendered.take(i as int)),
            decreases self.blocks.len() - i,
        {
            let ghost before = out@;
            if i > 0 {
                push_char(&mut out, '\n');
            }
            push_rendered(&mut out, &self.blocks[i]);
            proof {
                assert(rendered[i as int] == render_block(self.blocks@[i as int]@));
                if i == 0 {
                    assert(rendered.take(1) =~= seq![rendered[0]]);
                    assert(join_lines(rendered.take(1)) == rendered[0]);
                    assert(out@ =~= join_lines(rendered.take(1)));
                } else {
                    lemma_join_push(rendered.take(i as int), rendered[i as int]);
                    assert(rendered.take(i + 1) =~= rendered.take(i as int).push(
                        rendered[i as int],
                    ));
                    assert(out@ =~= join_lines(rendered.take(i + 1)));
                }
            }
            i = i + 1;
        }
        assert(rendered.take(i as int) =~= rendered);
        out
    }

    /// Replaces the blocks with those read from `text`: one block per line,
    /// a line that starts (after white space) with `- [ ] `, `- [x] ` or
    /// `- [X] ` becoming a to-do item; a text without lines gives one empty
    /// text block.
    pub fn from_text(&mut self, text: &str)
        ensures
            final(self)@ == with_blocks(old(self)@, blocks_of_text(text@)),
            final(self).blocks@.len() >= 1,
    {
        let v = str_chars(text);
        let spans = line_spans(&v);
        let ghost ls = lines(text@);
        let mut blocks: Vec<Block> = Vec::new();
        let mut i: usize = 0;
        while i < spans.len()
            invariant
                v@ == text@,
                ls == lines(text@),
                spans@.len() == ls.len(),
                forall|j: int|
                    0 <= j < spans@.len() ==> {
                        let (a, b) = #[trigger] spans@[j];
                        &&& a <= b <= v.len()
                        &&& v@.subrange(a as int, b as int) == ls[j]
                    },
                i <= spans.len(),
                blocks@.len() == i,
                forall|j: int| 0 <= j < i ==> #[trigger] blocks@[j]@ == parse_line(j as nat, ls[j]),
            decreases spans.len() - i,
        {
            let (a, b) = spans[i];
            let blk = block_of_line(i, &v, a, b);
            blocks.push(blk);
            i = i + 1;
        }
        if blocks.len() == 0 {
            blocks.push(new_text_block(make_block_id(0)));
        }
        self.blocks = blocks;
        proof {
            let bs = self.blocks@.map_values(|b: Block| b@);
            assert(bs =~= blocks_of_text(text@));
        }
    }
}

} // verus!
