use deepin_sticky_notes::model::{AppState, Block, BlockType, Note, NoteColor};

#[test]
fn parses_and_serializes_mixed_text() {
    let mut note = Note::new("test".into(), (0, 0));
    note.from_text("标题\n- [ ] 买牛奶\n- [x] 写代码");
    assert_eq!(note.blocks.len(), 3);
    assert_eq!(note.blocks[1].block_type, BlockType::Todo);
    assert!(!note.blocks[1].checked);
    assert!(note.blocks[2].checked);
    assert_eq!(note.plain_text(), "标题\n- [ ] 买牛奶\n- [x] 写代码");
}

#[test]
fn empty_text_keeps_an_editable_block() {
    let mut note = Note::new("test".into(), (0, 0));
    note.from_text("");
    assert_eq!(note.blocks.len(), 1);
    assert!(note.blocks[0].content.is_empty());
}

#[test]
fn new_note_has_defaults() {
    let note = Note::new("n".into(), (3, -4));
    assert_eq!(note.id, "n");
    assert_eq!(note.position, (3, -4));
    assert_eq!(note.size, (280, 360));
    assert!(!note.always_on_top);
    assert_eq!(note.color, NoteColor::Yellow);
    assert_eq!(note.blocks.len(), 1);
    assert_eq!(note.blocks[0].id, "block-1");
    assert_eq!(note.blocks[0].block_type, BlockType::Text);
    assert!(note.blocks[0].content.is_empty());
    assert!(!note.blocks[0].checked);
}

#[test]
fn note_color_defaults_to_yellow() {
    assert_eq!(NoteColor::default(), NoteColor::Yellow);
    assert!(AppState::default().notes.is_empty());
}

#[test]
fn from_text_numbers_block_ids_by_line() {
    let mut note = Note::new("n".into(), (0, 0));
    note.from_text("a\nb\nc\nd\ne\nf\ng\nh\ni\nj\nk");
    assert_eq!(note.blocks.len(), 11);
    assert_eq!(note.blocks[0].id, "block-0");
    assert_eq!(note.blocks[10].id, "block-10");
    assert_eq!(note.blocks[10].content, "k");
    note.from_text("");
    assert_eq!(note.blocks[0].id, "block-0");
    assert_eq!(note.blocks[0].block_type, BlockType::Text);
}

#[test]
fn from_text_reads_todo_boxes_after_white_space() {
    let mut note = Note::new("n".into(), (0, 0));
    note.from_text("  - [X] done\n\t- [ ] open\n-[ ] no\n- [y] no\n- [ ]");
    assert_eq!(note.blocks.len(), 5);
    assert_eq!(note.blocks[0].block_type, BlockType::Todo);
    assert_eq!(note.blocks[0].content, "done");
    assert!(note.blocks[0].checked);
    assert_eq!(note.blocks[1].block_type, BlockType::Todo);
    assert_eq!(note.blocks[1].content, "open");
    assert!(!note.blocks[1].checked);
    assert_eq!(note.blocks[2].block_type, BlockType::Text);
    assert_eq!(note.blocks[2].content, "-[ ] no");
    assert_eq!(note.blocks[3].block_type, BlockType::Text);
    assert_eq!(note.blocks[4].block_type, BlockType::Text);
    assert_eq!(note.blocks[4].content, "- [ ]");
    assert_eq!(note.plain_text(), "- [x] done\n- [ ] open\n-[ ] no\n- [y] no\n- [ ]");
}

#[test]
fn from_text_splits_lines_like_str_lines() {
    let mut note = Note::new("n".into(), (0, 0));
    note.from_text("one\r\ntwo\n\nthree\n");
    let contents: Vec<&str> = note.blocks.iter().map(|b| b.content.as_str()).collect();
    assert_eq!(contents, vec!["one", "two", "", "three"]);
    note.from_text("x\ry\r");
    assert_eq!(note.blocks.len(), 1);
    assert_eq!(note.blocks[0].content, "x\ry\r");
    note.from_text("\n");
    assert_eq!(note.blocks.len(), 1);
    assert_eq!(note.blocks[0].content, "");
}

#[test]
fn from_text_keeps_other_fields() {
    let mut note = Note::new("keep".into(), (7, 8));
    note.always_on_top = true;
    note.color = NoteColor::Blue;
    note.from_text("x");
    assert_eq!(note.id, "keep");
    assert_eq!(note.position, (7, 8));
    assert!(note.always_on_top);
    assert_eq!(note.color, NoteColor::Blue);
}

#[test]
fn plain_text_writes_todo_boxes() {
    let mut note = Note::new("n".into(), (0, 0));
    note.blocks = vec![
        Block { id: "a".into(), block_type: BlockType::Todo, content: "milk".into(), checked: true },
        Block { id: "b".into(), block_type: BlockType::Text, content: "text".into(), checked: true },
        Block { id: "c".into(), block_type: BlockType::Todo, content: "".into(), checked: false },
    ];
    assert_eq!(note.plain_text(), "- [x] milk\ntext\n- [ ] ");
    note.blocks.clear();
    assert_eq!(note.plain_text(), "");
}

#[test]
fn canonical_text_round_trips() {
    let text = "title\n  indented\n- [ ] a\n- [x] b\n\nend\r";
    let mut note = Note::new("n".into(), (0, 0));
    note.from_text(text);
    assert_eq!(note.plain_text(), text);
}

#[test]
fn surviving_blocks_round_trip() {
    let mut note = Note::new("n".into(), (0, 0));
    note.blocks = vec![
        Block { id: "x".into(), block_type: BlockType::Todo, content: "  a".into(), checked: true },
        Block { id: "y".into(), block_type: BlockType::Text, content: "".into(), checked: false },
        Block { id: "z".into(), block_type: BlockType::Todo, content: "".into(), checked: false },
    ];
    let text = note.plain_text();
    let mut back = Note::new("m".into(), (0, 0));
    back.from_text(&text);
    assert_eq!(back.blocks.len(), 3);
    for (i, (a, b)) in note.blocks.iter().zip(back.blocks.iter()).enumerate() {
        assert_eq!(a.block_type, b.block_type);
        assert_eq!(a.content, b.content);
        assert_eq!(a.checked, b.checked);
        assert_eq!(b.id, format!("block-{i}"));
    }
}

#[test]
fn clone_keeps_everything() {
    let mut state = AppState::default();
    state.notes.push(Note::new("a".into(), (1, 2)));
    state.notes[0].from_text("- [x] t");
    let copy = state.clone();
    assert_eq!(copy.notes.len(), 1);
    assert_eq!(copy.notes[0].id, "a");
    assert_eq!(copy.notes[0].blocks[0].content, "t");
    assert!(copy.notes[0].blocks[0].checked);
}
