# deepin-sticky-notes

A desktop sticky-notes program for Deepin: note windows with text and to-do
blocks, a tray menu, a global hotkey and a theme that follows the desktop.

The library in `src/` comes with machine-checked proofs of its contracts:

- `model` — blocks, notes and the saved state; a note's plain-text form
  (`Note::plain_text`) and reading a note back from text (`Note::from_text`).
- `roundtrip` — proofs that canonical texts and well-formed blocks survive a
  trip through the plain-text form.
- `text` — Unicode white space, line splitting as `str::lines` does it,
  joining lines, decimal numerals.
- `editing` — the edits a note window asks for on a note's blocks.
- `state` — the first note, new notes, and the text, pin and colour changes of
  a note; colour names and window titles.
- `tray`, `theme`, `markdown` — tray menu actions and click timing, the dark
  theme test on `gsettings` output, and Markdown rendering through Slint.

`app/` holds the program around it: windows (Slint), the tray icon, the
global hotkey, and loading and saving `notes.json`.
