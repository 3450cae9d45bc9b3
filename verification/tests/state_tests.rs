use deepin_sticky_notes::model::{AppState, BlockType, Note, NoteColor};
use deepin_sticky_notes::state::{
    cascade_position, color_from_name, color_name, new_note_position, note_id, title_cut_ok,
    window_title,
};

#[test]
fn ensure_note_adds_the_first_note_once() {
    let mut state = AppState::default();
    assert!(state.ensure_note());
    assert_eq!(state.notes.len(), 1);
    assert_eq!(state.notes[0].id, "note-1");
    assert_eq!(state.notes[0].position, (120, 120));
    assert!(!state.ensure_note());
    assert_eq!(state.notes.len(), 1);
}

#[test]
fn create_note_cascades_positions() {
    let mut state = AppState::default();
    let a = state.create_note(1700000000123);
    assert_eq!(a, "note-1700000000123");
    let b = state.create_note(0);
    assert_eq!(b, "note-0");
    assert_eq!(state.notes[0].position, (240, 160));
    assert_eq!(state.notes[1].position, (264, 184));
    assert_eq!(new_note_position(10), (480, 400));
    assert_eq!(note_id(u128::MAX), format!("note-{}", u128::MAX));
}

#[test]
fn note_changes_go_to_the_first_note_with_the_id() {
    let mut state = AppState::default();
    state.notes.push(Note::new("a".into(), (0, 0)));
    state.notes.push(Note::new("b".into(), (0, 0)));
    state.notes.push(Note::new("b".into(), (0, 0)));
    assert_eq!(state.find_note("b"), Some(1));
    assert_eq!(state.find_note("c"), None);
    assert!(state.set_note_text("b", "x\n- [ ] y"));
    assert_eq!(state.notes[1].blocks.len(), 2);
    assert_eq!(state.notes[1].blocks[1].block_type, BlockType::Todo);
    assert_eq!(state.notes[2].blocks.len(), 1);
    assert!(!state.set_note_text("c", "x"));
    assert_eq!(state.toggle_pin("b"), Some(true));
    assert_eq!(state.toggle_pin("b"), Some(false));
    assert_eq!(state.toggle_pin("zz"), None);
    assert!(state.set_color("a", NoteColor::Blue));
    assert_eq!(state.notes[0].color, NoteColor::Blue);
    assert!(!state.set_color("q", NoteColor::White));
}

#[test]
fn colour_names_round_trip() {
    for c in [NoteColor::Yellow, NoteColor::White, NoteColor::Blue] {
        assert_eq!(color_from_name(color_name(&c)), c);
    }
    assert_eq!(color_name(&NoteColor::White), "white");
    assert_eq!(color_from_name("blue"), NoteColor::Blue);
    assert_eq!(color_from_name("purple"), NoteColor::Yellow);
    assert_eq!(color_from_name("White"), NoteColor::Yellow);
}

#[test]
fn window_title_cuts_the_id_at_eight_bytes() {
    assert_eq!(window_title("note-1700000000123"), "便签 · note-170");
    assert_eq!(window_title("abc"), "便签 · abc");
    assert_eq!(window_title("ab便签cd"), "便签 · ab便签");
    let id = "ab便签cd";
    assert_eq!(window_title(id), format!("便签 · {}", &id[..id.len().min(8)]));
}

#[test]
fn delete_note_removes_the_first_note_with_the_id() {
    let mut state = AppState::default();
    state.notes.push(Note::new("a".into(), (0, 0)));
    state.notes.push(Note::new("b".into(), (1, 1)));
    state.notes.push(Note::new("b".into(), (2, 2)));
    assert!(state.delete_note("b"));
    assert_eq!(state.notes.len(), 2);
    assert_eq!(state.notes[1].position, (2, 2));
    assert!(!state.delete_note("zz"));
    assert_eq!(state.notes.len(), 2);
    assert!(state.delete_note("a"));
    assert!(state.delete_note("b"));
    assert!(state.notes.is_empty());
}

#[test]
fn cascade_moves_each_note_by_28() {
    assert_eq!(cascade_position((1113, 486), 0), (1113, 486));
    assert_eq!(cascade_position((1113, 486), 3), (1197, 570));
    assert_eq!(cascade_position((-10, 5), 1), (18, 33));
}

#[test]
fn title_cut_is_checked_at_byte_eight() {
    assert!(title_cut_ok("note-1"));
    assert!(title_cut_ok("note-1700000000123"));
    assert!(title_cut_ok("ab便签cd"));
    assert!(title_cut_ok(""));
    assert!(!title_cut_ok("便签便签"));
    assert!(!title_cut_ok("abcdefg便"));
    for id in ["便签便签", "abcdefg便", "a便b", "x"] {
        assert_eq!(title_cut_ok(id), id.is_char_boundary(id.len().min(8)));
    }
}
