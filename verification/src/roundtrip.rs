//! How the plain-text form and the blocks of a note determine each other.
use vstd::prelude::*;

use crate::model::{
    block_id, blocks_of_text, empty_block, has_todo_prefix, parse_line, plain_of, render_block,
    todo_mark, BlockModel, BlockType,
};
use crate::text::{
    is_white_space, join_lines, white_space_code_points, white_space_is_unicode_white_space, leading_ws, lemma_leading_ws, lemma_line_len, line_len, lines,
    strip_cr, trim_start,
};

verus! {

/// No carriage return in `s` stands right before a line feed.
pub open spec fn no_crlf(s: Seq<char>) -> bool {
    forall|i: int| 0 <= i && i + 1 < s.len() ==> !(#[trigger] s[i] == '\r' && s[i + 1] == '\n')
}

/// A line that reads back as itself: when it starts (after white space) with
/// a to-do box, it has no white space before the box and the box holds a
/// space or a small `x`.
pub open spec fn canonical_line(l: Seq<char>) -> bool {
    has_todo_prefix(trim_start(l)) ==> leading_ws(l) == 0 && l[3] != 'X'
}

/// A text that reads back as itself: no `\r\n`, no line feed at its end, and
/// every line canonical.
pub open spec fn canonical_text(t: Seq<char>) -> bool {
    &&& no_crlf(t)
    &&& (t.len() == 0 || t.last() != '\n')
    &&& forall|i: int| 0 <= i < lines(t).len() ==> canonical_line(#[trigger] lines(t)[i])
}

/// A block that its line gives back: its content holds no line feed, ends in
/// no carriage return unless the block is the last one, and a text block is
/// unchecked and does not read as a to-do item.
pub open spec fn block_survives_text(b: BlockModel, is_last: bool) -> bool {
    &&& forall|j: int| 0 <= j < b.content.len() ==> #[trigger] b.content[j] != '\n'
    &&& (!is_last ==> !(b.content.len() > 0 && b.content.last() == '\r'))
    &&& (b.block_type == BlockType::Text ==> !b.checked && !has_todo_prefix(
        trim_start(b.content),
    ))
}

/// Blocks that their plain text gives back, ids aside: at least one block,
/// each block surviving as a line, and no empty text block at the end after
/// other blocks (a final line feed yields no line).
pub open spec fn blocks_survive_text(bs: Seq<BlockModel>) -> bool {
    &&& bs.len() >= 1
    &&& forall|i: int| 0 <= i < bs.len() ==> block_survives_text(#[trigger] bs[i], i == bs.len() - 1)
    &&& !(bs.len() >= 2 && bs.last().block_type == BlockType::Text && bs.last().content.len() == 0)
}

/// `b` under the id that reading line `index` gives.
pub open spec fn renumbered(b: BlockModel, index: nat) -> BlockModel {
    BlockModel { id: block_id(index), ..b }
}

proof fn lemma_lines_nonempty(t: Seq<char>)
    requires
        t.len() > 0,
    ensures
        lines(t).len() >= 1,
{
}

/// Joining the lines of a canonical text gives the text back.
proof fn lemma_join_lines_of_lines(t: Seq<char>)
    requires
        t.len() > 0,
        no_crlf(t),
        t.last() != '\n',
    ensures
        join_lines(lines(t)) == t,
    decreases t.len(),
{
    let n = line_len(t);
    lemma_line_len_bound(t);
    if n >= t.len() {
        assert(lines(t) == seq![t]);
    } else {
        let rest = t.skip(n as int + 1);
        lemma_line_len_stops(t);
        assert(t[n as int] == '\n');
        assert(n + 1 < t.len());
        assert(rest.last() == t.last());
        assert forall|i: int| 0 <= i && i + 1 < rest.len() implies !(#[trigger] rest[i] == '\r'
            && rest[i + 1] == '\n') by {
            assert(rest[i] == t[n + 1 + i]);
            assert(rest[i + 1] == t[n + 1 + i + 1]);
        }
        lemma_join_lines_of_lines(rest);
        lemma_lines_nonempty(rest);
        let first = t.take(n as int);
        if n > 0 {
            assert(t[n - 1] != '\r');
        }
        assert(strip_cr(first) == first);
        let ls = lines(t);
        assert(ls == seq![first] + lines(rest));
        assert(ls.drop_first() =~= lines(rest));
        assert(ls[0] == first);
        assert(join_lines(ls) == first + seq!['\n'] + join_lines(lines(rest)));
        assert(t =~= first + seq!['\n'] + rest);
    }
}

proof fn lemma_line_len_bound(s: Seq<char>)
    ensures
        line_len(s) <= s.len(),
        forall|j: int| 0 <= j < line_len(s) ==> #[trigger] s[j] != '\n',
    decreases s.len(),
{
    if s.len() > 0 && s[0] != '\n' {
        lemma_line_len_bound(s.drop_first());
        assert forall|j: int| 0 <= j < line_len(s) implies #[trigger] s[j] != '\n' by {
            if j > 0 {
                assert(s[j] == s.drop_first()[j - 1]);
            }
        }
    }
}

proof fn lemma_line_len_stops(s: Seq<char>)
    ensures
        line_len(s) < s.len() ==> s[line_len(s) as int] == '\n',
    decreases s.len(),
{
    if s.len() > 0 && s[0] != '\n' {
        lemma_line_len_stops(s.drop_first());
    }
}

/// A canonical line reads back as a block that is written as the same line.
proof fn lemma_render_parse_line(index: nat, l: Seq<char>)
    requires
        canonical_line(l),
    ensures
        render_block(parse_line(index, l)) == l,
{
    let t = trim_start(l);
    if has_todo_prefix(t) {
        assert(t =~= l);
        let b = parse_line(index, l);
        assert(todo_mark(b.checked) == l[3]);
        assert(render_block(b) =~= l);
    }
}

/// The lines of the joined lines are those lines again, when none holds a
/// line feed, none but the last ends in a carriage return, and the last is
/// not empty.
proof fn lemma_lines_of_join(rs: Seq<Seq<char>>)
    requires
        rs.len() >= 1,
        rs.last().len() > 0,
        forall|i: int, j: int|
            0 <= i < rs.len() && 0 <= j < rs[i].len() ==> #[trigger] rs[i][j] != '\n',
        forall|i: int|
            0 <= i < rs.len() - 1 ==> !(#[trigger] rs[i].len() > 0 && rs[i].last() == '\r'),
    ensures
        lines(join_lines(rs)) == rs,
    decreases rs.len(),
{
    let t = join_lines(rs);
    if rs.len() == 1 {
        assert(t == rs[0]);
        assert forall|j: int| 0 <= j < t.len() implies #[trigger] t[j] != '\n' by {
            assert(rs[0][j] != '\n');
        }
        lemma_line_len(t, t.len() as int);
        assert(lines(t) =~= rs);
    } else {
        let rest = rs.drop_first();
        assert forall|i: int, j: int|
            0 <= i < rest.len() && 0 <= j < rest[i].len() implies #[trigger] rest[i][j]
            != '\n' by {
            assert(rest[i] == rs[i + 1]);
        }
        assert forall|i: int| 0 <= i < rest.len() - 1 implies !(#[trigger] rest[i].len() > 0
            && rest[i].last() == '\r') by {
            assert(rest[i] == rs[i + 1]);
        }
        lemma_lines_of_join(rest);
        let first = rs[0];
        let tail = join_lines(rest);
        assert(t == first + seq!['\n'] + tail);
        assert forall|j: int| 0 <= j < first.len() implies #[trigger] t[j] != '\n' by {
            assert(t[j] == first[j]);
            assert(rs[0][j] != '\n');
        }
        assert(t[first.len() as int] == '\n');
        lemma_line_len(t, first.len() as int);
        assert(t.take(first.len() as int) =~= first);
        assert(strip_cr(first) == first);
        assert(t.skip(first.len() as int + 1) =~= tail);
        assert(lines(t) == seq![first] + lines(tail));
        assert(lines(t) =~= rs);
    }
}

/// A block that survives as a line reads back from its line, under the id
/// of its position.
proof fn lemma_parse_render(index: nat, b: BlockModel, is_last: bool)
    requires
        block_survives_text(b, is_last),
    ensures
        parse_line(index, render_block(b)) == renumbered(b, index),
{
    let r = render_block(b);
    match b.block_type {
        BlockType::Text => {},
        BlockType::Todo => {
            assert(!is_white_space(r[0]));
            lemma_leading_ws(r, 0);
            assert(trim_start(r) =~= r);
            assert(r.skip(6) =~= b.content);
        },
    }
}

proof fn lemma_leading_ws_bound(s: Seq<char>)
    ensures
        leading_ws(s) <= s.len(),
    decreases s.len(),
{
    if s.len() > 0 {
        lemma_leading_ws_bound(s.drop_first());
    }
}

/// Any Unicode `White_Space` character before a line is skipped when the
/// line is read: it does not change the line without its leading white
/// space, and a line with a to-do box reads as the same block with it.
pub proof fn white_space_before_a_line_is_skipped(index: nat, c: char, l: Seq<char>)
    requires
        white_space_code_points().contains(c as u32),
    ensures
        trim_start(seq![c] + l) == trim_start(l),
        has_todo_prefix(trim_start(l)) ==> parse_line(index, seq![c] + l) == parse_line(index, l),
{
    white_space_is_unicode_white_space(c);
    let s = seq![c] + l;
    assert(s[0] == c);
    assert(s.drop_first() =~= l);
    assert(leading_ws(s) == 1 + leading_ws(l));
    lemma_leading_ws_bound(l);
    assert(s.skip(leading_ws(s) as int) =~= l.skip(leading_ws(l) as int));
}

/// Writing a canonical text's blocks as plain text gives the text back.
pub proof fn plain_text_of_read_text(text: Seq<char>)
    requires
        canonical_text(text),
    ensures
        plain_of(blocks_of_text(text)) == text,
{
    let ls = lines(text);
    let bs = blocks_of_text(text);
    if text.len() == 0 {
        assert(ls.len() == 0);
        assert(bs.map_values(|b: BlockModel| render_block(b)) =~= seq![Seq::<char>::empty()]);
        assert(plain_of(bs) =~= text);
    } else {
        lemma_lines_nonempty(text);
        assert forall|i: int| 0 <= i < ls.len() implies render_block(#[trigger] bs[i]) == ls[i] by {
            lemma_render_parse_line(i as nat, ls[i]);
        }
        assert(bs.map_values(|b: BlockModel| render_block(b)) =~= ls);
        lemma_join_lines_of_lines(text);
    }
}

/// Reading back the plain text of blocks that survive as lines gives the
/// same blocks, each under the id `block-<position>`.
pub proof fn read_text_of_plain_text(bs: Seq<BlockModel>)
    requires
        blocks_survive_text(bs),
    ensures
        blocks_of_text(plain_of(bs)).len() == bs.len(),
        forall|i: int|
            0 <= i < bs.len() ==> #[trigger] blocks_of_text(plain_of(bs))[i] == renumbered(
                bs[i],
                i as nat,
            ),
{
    let rs = bs.map_values(|b: BlockModel| render_block(b));
    let t = plain_of(bs);
    assert(t == join_lines(rs));
    let last = bs.last();
    if rs.last().len() == 0 {
        // Only an empty text block is written as an empty line.
        assert(last.block_type == BlockType::Text);
        assert(bs.len() == 1);
        assert(block_survives_text(bs[0], true));
        assert(bs[0].content =~= Seq::<char>::empty());
        assert(t == rs[0]);
        assert(lines(t) =~= Seq::<Seq<char>>::empty());
        assert(blocks_of_text(t) =~= seq![empty_block(block_id(0))]);
        assert(blocks_of_text(t)[0] == renumbered(bs[0], 0));
    } else {
        assert forall|i: int, j: int|
            0 <= i < rs.len() && 0 <= j < rs[i].len() implies #[trigger] rs[i][j] != '\n' by {
            assert(block_survives_text(bs[i], i == bs.len() - 1));
            if bs[i].block_type == BlockType::Todo && j >= 6 {
                assert(rs[i][j] == bs[i].content[j - 6]);
            }
        }
        assert forall|i: int| 0 <= i < rs.len() - 1 implies !(#[trigger] rs[i].len() > 0
            && rs[i].last() == '\r') by {
            assert(block_survives_text(bs[i], i == bs.len() - 1));
        }
        lemma_lines_of_join(rs);
        assert forall|i: int| 0 <= i < bs.len() implies #[trigger] blocks_of_text(t)[i]
            == renumbered(bs[i], i as nat) by {
            lemma_parse_render(i as nat, bs[i], i == bs.len() - 1);
        }
    }
}

} // verus!
