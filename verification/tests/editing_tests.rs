use deepin_sticky_notes::model::{Block, BlockType, Note};

fn note_with(lines: &[&str]) -> Note {
    let mut note = Note::new("n".into(), (0, 0));
    note.from_text(&lines.join("\n"));
    note
}

fn contents(note: &Note) -> Vec<String> {
    note.blocks.iter().map(|b| b.content.clone()).collect()
}

#[test]
fn editing_a_text_line_to_a_box_makes_a_todo() {
    let mut note = note_with(&["a", "- [ ] b"]);
    assert!(!note.edit_block(0, "  - [ ] "));
    assert_eq!(note.blocks[0].block_type, BlockType::Text);
    assert_eq!(note.blocks[0].content, "  - [ ] ");
    assert!(!note.edit_block(0, "- [ ] x"));
    assert_eq!(note.blocks[0].block_type, BlockType::Text);
    assert!(note.edit_block(0, "- [ ]"));
    assert_eq!(note.blocks[0].block_type, BlockType::Todo);
    assert_eq!(note.blocks[0].content, "");
    assert!(!note.blocks[0].checked);
    assert!(!note.edit_block(1, "- [ ]"));
    assert_eq!(note.blocks[1].block_type, BlockType::Todo);
    assert_eq!(note.blocks[1].content, "- [ ]");
    assert!(!note.edit_block(5, "x"));
    assert!(!note.edit_block(-1, "x"));
    assert_eq!(note.blocks.len(), 2);
}

#[test]
fn inserting_after_a_line() {
    let mut note = note_with(&["a", "b"]);
    assert_eq!(note.insert_block_after(0, BlockType::Todo, "new".into()), 1);
    assert_eq!(contents(&note), vec!["a", "", "b"]);
    assert_eq!(note.blocks[1].block_type, BlockType::Todo);
    assert_eq!(note.blocks[1].id, "new");
    assert_eq!(note.insert_block_after(-1, BlockType::Text, "first".into()), 0);
    assert_eq!(note.blocks[0].id, "first");
}

#[test]
fn ticking_and_downgrading() {
    let mut note = note_with(&["- [ ] a"]);
    note.set_block_checked(0, true);
    assert!(note.blocks[0].checked);
    note.set_block_checked(3, false);
    assert!(note.blocks[0].checked);
    note.downgrade_block(0);
    assert_eq!(note.blocks[0].block_type, BlockType::Text);
    assert!(!note.blocks[0].checked);
    assert_eq!(note.blocks[0].content, "a");
}

#[test]
fn deleting_lines_and_selections() {
    let mut note = note_with(&["a", "b", "c", "d"]);
    assert_eq!(note.delete_blocks(1, -1, -1, "x".into()), 1);
    assert_eq!(contents(&note), vec!["a", "c", "d"]);
    assert_eq!(note.delete_blocks(0, 2, 1, "x".into()), 0);
    assert_eq!(contents(&note), vec!["a"]);
    let mut note = note_with(&["a", "b", "c"]);
    assert_eq!(note.delete_blocks(2, 2, 2, "x".into()), 1);
    assert_eq!(contents(&note), vec!["a", "b"]);
    assert_eq!(note.delete_blocks(0, 0, 1, "fresh".into()), 0);
    assert_eq!(note.blocks.len(), 1);
    assert_eq!(note.blocks[0].id, "fresh");
    assert_eq!(note.blocks[0].block_type, BlockType::Text);
    assert_eq!(note.blocks[0].content, "");
}

#[test]
fn moving_a_line_stays_in_the_note() {
    let mut note = note_with(&["a", "b", "c"]);
    assert_eq!(note.move_block(0, 5), Some(2));
    assert_eq!(contents(&note), vec!["b", "c", "a"]);
    assert_eq!(note.move_block(1, -9), Some(0));
    assert_eq!(contents(&note), vec!["c", "b", "a"]);
    assert_eq!(note.move_block(2, 0), None);
    let mut single = Note::new("s".into(), (0, 0));
    single.blocks = vec![Block { id: "o".into(), block_type: BlockType::Text, content: "o".into(), checked: false }];
    assert_eq!(single.move_block(0, 1), None);
}
