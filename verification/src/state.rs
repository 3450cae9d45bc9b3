//! The application state: the first note, new notes, and the changes that a
//! note window asks for (text, pin, colour); colour names and window titles.
use vstd::prelude::*;

use crate::model::{
    blocks_of_text, new_note_model, with_blocks, AppState, Note, NoteColor, NoteModel,
};
use crate::text::{decimal, push_char, push_decimal, same_text, str_chars};

verus! {

// ---------------------------------------------------------------------------
// New notes
// ---------------------------------------------------------------------------

/// The id of a note made at `millis` milliseconds after the Unix epoch:
/// `note-<millis>`.
pub open spec fn note_id_of(millis: nat) -> Seq<char> {
    seq!['n', 'o', 't', 'e', '-'] + decimal(millis)
}

/// `note-<millis>`.
pub fn note_id(millis: u128) -> (s: String)
    ensures
        s@ == note_id_of(millis as nat),
{
    let mut s = String::new();
    push_char(&mut s, 'n');
    push_char(&mut s, 'o');
    push_char(&mut s, 't');
    push_char(&mut s, 'e');
    push_char(&mut s, '-');
    push_decimal(&mut s, millis);
    assert(s@ =~= note_id_of(millis as nat));
    s
}

/// Whether a note can be placed after `count` notes without leaving `i32`.
pub open spec fn position_fits(count: nat) -> bool {
    240 + 24 * count <= i32::MAX
}

/// Where a new note opens when `count` notes exist: 24 pixels further
/// right and down for each of them, from (240, 160).
pub open spec fn new_note_position_of(count: nat) -> (int, int) {
    (240 + 24 * count as int, 160 + 24 * count as int)
}

/// Where a new note opens when `count` notes exist.
pub fn new_note_position(count: usize) -> (p: (i32, i32))
    requires
        position_fits(count as nat),
    ensures
        p.0 == new_note_position_of(count as nat).0,
        p.1 == new_note_position_of(count as nat).1,
{
    let c = count as i32;
    (240 + c * 24, 160 + c * 24)
}

/// Whether the cascade of `count` notes from `base` stays within `i32`.
pub open spec fn cascade_fits(base: (i32, i32), count: nat) -> bool {
    &&& 28 * count <= i32::MAX
    &&& i32::MIN <= base.0 + 28 * count <= i32::MAX
    &&& i32::MIN <= base.1 + 28 * count <= i32::MAX
}

/// Where a new note opens from the screen-centred point `base` when
/// `count` notes are open: 28 pixels further right and down for each.
pub fn cascade_position(base: (i32, i32), count: usize) -> (p: (i32, i32))
    requires
        cascade_fits(base, count as nat),
    ensures
        p.0 == base.0 + 28 * count,
        p.1 == base.1 + 28 * count,
{
    let n = count as i32;
    (base.0 + n * 28, base.1 + n * 28)
}

// ---------------------------------------------------------------------------
// Colours and titles
// ---------------------------------------------------------------------------

/// The name of a colour.
pub open spec fn color_name_of(c: NoteColor) -> Seq<char> {
    match c {
        NoteColor::Yellow => "yellow"@,
        NoteColor::White => "white"@,
        NoteColor::Blue => "blue"@,
    }
}

/// The colour that a name selects: `white`, `blue`, and yellow for any other name.
pub open spec fn color_of_name(name: Seq<char>) -> NoteColor {
    if name == "white"@ {
        NoteColor::White
    } else if name == "blue"@ {
        NoteColor::Blue
    } else {
        NoteColor::Yellow
    }
}

/// The name of a colour, as the window's style knows it.
pub fn color_name(color: &NoteColor) -> (s: &'static str)
    ensures
        s@ == color_name_of(*color),
        *color == NoteColor::Yellow ==> s@ == "yellow"@,
        *color == NoteColor::White ==> s@ == "white"@,
        *color == NoteColor::Blue ==> s@ == "blue"@,
{
    match color {
        NoteColor::Yellow => "yellow",
        NoteColor::White => "white",
        NoteColor::Blue => "blue",
    }
}

/// The colour that a window asks for by name.
pub fn color_from_name(name: &str) -> (c: NoteColor)
    ensures
        c == color_of_name(name@),
{
    if same_text(name, "white") {
        NoteColor::White
    } else if same_text(name, "blue") {
        NoteColor::Blue
    } else {
        NoteColor::Yellow
    }
}

/// Every colour is selected again by its own name.
pub proof fn color_name_round_trip(c: NoteColor)
    ensures
        color_of_name(color_name_of(c)) == c,
{
    reveal_strlit("yellow");
    reveal_strlit("white");
    reveal_strlit("blue");
    assert("yellow"@ != "white"@ && "yellow"@ != "blue"@ && "blue"@ != "white"@) by {
        assert("yellow"@.len() != "white"@.len());
        assert("yellow"@[0] != "blue"@[0]);
        assert("blue"@[0] != "white"@[0]);
    }
}

/// The colour names are the window style's names `yellow`, `white` and
/// `blue`, one for each colour, and a new note's colour is named `yellow`.
pub proof fn color_names_are_style_names(c: NoteColor, d: NoteColor, id: Seq<char>, position: (
    i32,
    i32,
))
    ensures
        color_name_of(c) == "yellow"@ || color_name_of(c) == "white"@ || color_name_of(c)
            == "blue"@,
        color_name_of(c) == color_name_of(d) ==> c == d,
        color_name_of(new_note_model(id, position).color) == "yellow"@,
        color_of_name(color_name_of(c)) == c,
{
    color_name_round_trip(c);
    color_name_round_trip(d);
}

/// Bytes that `c` takes in UTF-8.
pub open spec fn utf8_len(c: char) -> nat {
    let u = c as u32;
    if u < 0x80 {
        1
    } else if u < 0x800 {
        2
    } else if u < 0x10000 {
        3
    } else {
        4
    }
}

/// Bytes that `s` takes in UTF-8.
pub open spec fn utf8_bytes(s: Seq<char>) -> nat
    decreases s.len(),
{
    if s.len() == 0 {
        0
    } else {
        utf8_len(s[0]) + utf8_bytes(s.drop_first())
    }
}

/// How many characters at the front of `s` fit in `budget` bytes of UTF-8.
pub open spec fn chars_within(s: Seq<char>, budget: nat) -> nat
    decreases s.len(),
{
    if s.len() == 0 || utf8_len(s[0]) > budget {
        0
    } else {
        1 + chars_within(s.drop_first(), (budget - utf8_len(s[0])) as nat)
    }
}

/// Whether the first `min(bytes, 8)` bytes of `id` end at a character
/// boundary, so that they can be cut off.
pub open spec fn title_cut_at_boundary(id: Seq<char>) -> bool {
    let limit = if utf8_bytes(id) < 8 {
        utf8_bytes(id)
    } else {
        8
    };
    utf8_bytes(id.take(chars_within(id, 8) as int)) == limit
}

/// The title of a note window: `便签 · ` and the first eight bytes of the id.
pub open spec fn window_title_of(id: Seq<char>) -> Seq<char> {
    "便签 · "@ + id.take(chars_within(id, 8) as int)
}

fn char_utf8_len(c: char) -> (n: usize)
    ensures
        n == utf8_len(c),
{
    let u: u32 = c as u32;
    if u < 0x80 {
        1
    } else if u < 0x800 {
        2
    } else if u < 0x10000 {
        3
    } else {
        4
    }
}

proof fn lemma_chars_within(s: Seq<char>, budget: nat, k: int, used: nat)
    requires
        0 <= k <= s.len(),
        used <= budget,
        utf8_bytes(s.take(k)) == used,
        chars_within(s, budget) == k + chars_within(s.skip(k), (budget - used) as nat),
    ensures
        k < s.len() && utf8_len(s[k]) <= budget - used ==> chars_within(s, budget) == k + 1
            + chars_within(s.skip(k + 1), (budget - used - utf8_len(s[k])) as nat)
            && utf8_bytes(s.take(k + 1)) == used + utf8_len(s[k]),
        k == s.len() || utf8_len(s[k]) > budget - used ==> chars_within(s, budget) == k,
{
    if k < s.len() {
        assert(s.skip(k).drop_first() =~= s.skip(k + 1));
        assert(s.skip(k)[0] == s[k]);
        lemma_utf8_bytes_push(s.take(k), s[k]);
        assert(s.take(k).push(s[k]) =~= s.take(k + 1));
    }
}

proof fn lemma_utf8_bytes_push(s: Seq<char>, c: char)
    ensures
        utf8_bytes(s.push(c)) == utf8_bytes(s) + utf8_len(c),
    decreases s.len(),
{
    if s.len() > 0 {
        lemma_utf8_bytes_push(s.drop_first(), c);
        assert(s.push(c).drop_first() =~= s.drop_first().push(c));
        assert(s.push(c)[0] == s[0]);
    } else {
        assert(s.push(c).drop_first() =~= Seq::<char>::empty());
        assert(utf8_bytes(Seq::<char>::empty()) == 0);
        assert(s.push(c)[0] == c);
    }
}

/// How many characters at the front of `v` fit in eight bytes of UTF-8, and
/// how many bytes they take.
fn title_prefix(v: &Vec<char>) -> (r: (usize, usize))
    ensures
        r.0 == chars_within(v@, 8),
        r.0 <= v.len(),
        r.1 == utf8_bytes(v@.take(r.0 as int)),
{
    let mut used: usize = 0;
    let mut k: usize = 0;
    assert(v@.skip(0) =~= v@);
    assert(v@.take(0) =~= Seq::<char>::empty());
    while k < v.len() && char_utf8_len(v[k]) <= 8 - used
        invariant
            k <= v.len(),
            used <= 8,
            utf8_bytes(v@.take(k as int)) == used,
            chars_within(v@, 8) == k + chars_within(v@.skip(k as int), (8 - used) as nat),
        decreases v.len() - k,
    {
        proof {
            lemma_chars_within(v@, 8, k as int, used as nat);
        }
        used = used + char_utf8_len(v[k]);
        k = k + 1;
    }
    proof {
        lemma_chars_within(v@, 8, k as int, used as nat);
    }
    (k, used)
}

proof fn lemma_utf8_bytes_split(s: Seq<char>, k: int)
    requires
        0 <= k <= s.len(),
    ensures
        utf8_bytes(s) == utf8_bytes(s.take(k)) + utf8_bytes(s.skip(k)),
    decreases k,
{
    if k == 0 {
        assert(s.take(0) =~= Seq::<char>::empty());
        assert(utf8_bytes(Seq::<char>::empty()) == 0);
        assert(s.skip(0) =~= s);
    } else {
        lemma_utf8_bytes_split(s.drop_first(), k - 1);
        assert(s.take(k).drop_first() =~= s.drop_first().take(k - 1));
        assert(s.take(k)[0] == s[0]);
        assert(s.drop_first().skip(k - 1) =~= s.skip(k));
    }
}

/// Whether the title of note `id` can be cut: the first `min(bytes, 8)`
/// bytes of the id end at a character boundary.
pub fn title_cut_ok(id: &str) -> (r: bool)
    ensures
        r == title_cut_at_boundary(id@),
{
    let v = str_chars(id);
    let (k, used) = title_prefix(&v);
    // The id's length in bytes, counted up to 8.
    let mut total: usize = 0;
    let mut j: usize = 0;
    assert(v@.take(0) =~= Seq::<char>::empty());
    while j < v.len() && total < 8
        invariant
            j <= v.len(),
            total < 8 || j > 0,
            total <= 12,
            total == utf8_bytes(v@.take(j as int)),
        decreases v.len() - j,
    {
        proof {
            lemma_utf8_bytes_push(v@.take(j as int), v@[j as int]);
            assert(v@.take(j as int).push(v@[j as int]) =~= v@.take(j + 1));
        }
        total = total + char_utf8_len(v[j]);
        j = j + 1;
    }
    proof {
        lemma_utf8_bytes_split(v@, j as int);
        if j == v.len() {
            assert(v@.skip(j as int) =~= Seq::<char>::empty());
            assert(utf8_bytes(Seq::<char>::empty()) == 0);
        }
    }
    let limit = if total < 8 {
        total
    } else {
        8
    };
    used == limit
}

/// The title of the window of note `id`: `便签 · ` and the first
/// `min(bytes, 8)` bytes of the id, which must end at a character boundary.
pub fn window_title(id: &str) -> (s: String)
    requires
        title_cut_at_boundary(id@),
    ensures
        s@ == window_title_of(id@),
{
    let v = str_chars(id);
    let (k, _used) = title_prefix(&v);
    let mut s = String::from_str("便签 · ");
    let ghost start = s@;
    let mut i: usize = 0;
    while i < k
        invariant
            v@ == id@,
            i <= k <= v.len(),
            s@ == start + v@.take(i as int),
        decreases k - i,
    {
        push_char(&mut s, v[i]);
        i = i + 1;
        assert(s@ =~= start + v@.take(i as int));
    }
    s
}

proof fn lemma_ascii_chars_within(s: Seq<char>, budget: nat)
    requires
        forall|i: int| 0 <= i < s.len() ==> (#[trigger] s[i] as u32) < 0x80,
    ensures
        chars_within(s, budget) == if s.len() < budget {
            s.len()
        } else {
            budget
        },
        utf8_bytes(s) == s.len(),
    decreases s.len(),
{
    if s.len() > 0 {
        assert((s[0] as u32) < 0x80);
        assert forall|i: int| 0 <= i < s.drop_first().len() implies (#[trigger] s.drop_first()[i]
            as u32) < 0x80 by {
            assert(s.drop_first()[i] == s[i + 1]);
        }
        if budget > 0 {
            lemma_ascii_chars_within(s.drop_first(), (budget - 1) as nat);
        } else {
            lemma_ascii_chars_within(s.drop_first(), 0);
        }
    }
}

/// An id of ASCII characters only, such as `note-1` or `note-<millis>`,
/// can always be cut for its window title.
pub proof fn title_cut_at_boundary_for_ascii(id: Seq<char>)
    requires
        forall|i: int| 0 <= i < id.len() ==> (#[trigger] id[i] as u32) < 0x80,
    ensures
        title_cut_at_boundary(id),
{
    lemma_ascii_chars_within(id, 8);
    let k = chars_within(id, 8);
    let t = id.take(k as int);
    assert forall|i: int| 0 <= i < t.len() implies (#[trigger] t[i] as u32) < 0x80 by {
        assert(t[i] == id[i]);
    }
    lemma_ascii_chars_within(t, 0);
}

// ---------------------------------------------------------------------------
// The application state
// ---------------------------------------------------------------------------

/// Index of the first note with this id, if any.
pub open spec fn first_with_id(notes: Seq<NoteModel>, id: Seq<char>, i: int) -> bool {
    &&& 0 <= i < notes.len()
    &&& notes[i].id == id
    &&& forall|j: int| 0 <= j < i ==> #[trigger] notes[j].id != id
}

/// No note has this id.
pub open spec fn no_note_with_id(notes: Seq<NoteModel>, id: Seq<char>) -> bool {
    forall|j: int| 0 <= j < notes.len() ==> #[trigger] notes[j].id != id
}

/// `n` pinned or unpinned.
pub open spec fn with_pin(n: NoteModel, pinned: bool) -> NoteModel {
    NoteModel { always_on_top: pinned, ..n }
}

/// `n` in another colour.
pub open spec fn with_color(n: NoteModel, color: NoteColor) -> NoteModel {
    NoteModel { color, ..n }
}

impl AppState {
    /// Makes sure that there is a note: with none, adds `note-1` at (120, 120).
    /// Tells whether it added one.
    pub fn ensure_note(&mut self) -> (added: bool)
        ensures
            added == (old(self)@.len() == 0),
            added ==> final(self)@ == seq![new_note_model("note-1"@, (120, 120))],
            !added ==> final(self)@ == old(self)@,
    {
        if self.notes.len() == 0 {
            let n = Note::new(String::from_str("note-1"), (120, 120));
            self.notes.push(n);
            assert(self@ =~= seq![new_note_model("note-1"@, (120, 120))]);
            true
        } else {
            false
        }
    }

    /// Adds a new note made at `millis` milliseconds after the Unix epoch,
    /// placed after those that exist; returns its id.
    pub fn create_note(&mut self, millis: u128) -> (id: String)
        requires
            position_fits(old(self).notes@.len() as nat),
        ensures
            id@ == note_id_of(millis as nat),
            final(self)@ == old(self)@.push(
                new_note_model(
                    id@,
                    (
                        new_note_position_of(old(self).notes@.len() as nat).0 as i32,
                        new_note_position_of(old(self).notes@.len() as nat).1 as i32,
                    ),
                ),
            ),
    {
        let id = note_id(millis);
        let position = new_note_position(self.notes.len());
        let n = Note::new(id.clone(), position);
        let ghost before = self@;
        self.notes.push(n);
        assert(self@ =~= before.push(n@));
        id
    }

    /// Index of the first note with this id.
    pub fn find_note(&self, id: &str) -> (r: Option<usize>)
        ensures
            r matches Some(i) ==> first_with_id(self@, id@, i as int),
            r is None ==> no_note_with_id(self@, id@),
    {
        let mut i: usize = 0;
        while i < self.notes.len()
            invariant
                i <= self.notes.len(),
                forall|j: int| 0 <= j < i ==> #[trigger] self@[j].id != id@,
            decreases self.notes.len() - i,
        {
            if same_text(self.notes[i].id.as_str(), id) {
                return Some(i);
            }
            i = i + 1;
        }
        None
    }

    /// Replaces the blocks of the first note with this id by those read from
    /// `text`; tells whether there was such a note.
    pub fn set_note_text(&mut self, id: &str, text: &str) -> (found: bool)
        ensures
            found == !no_note_with_id(old(self)@, id@),
            !found ==> final(self)@ == old(self)@,
            found ==> exists|i: int|
                first_with_id(old(self)@, id@, i) && final(self)@ == old(self)@.update(
                    i,
                    with_blocks(old(self)@[i], blocks_of_text(text@)),
                ),
    {
        match self.find_note(id) {
            Some(i) => {
                let ghost before = self@;
                let mut n = self.notes.remove(i);
                n.from_text(text);
                self.notes.insert(i, n);
                assert(self@ =~= before.update(i as int, with_blocks(before[i as int], blocks_of_text(text@))));
                true
            },
            None => false,
        }
    }

    /// Flips the pin of the first note with this id; gives its new state, or
    /// nothing when there is no such note.
    pub fn toggle_pin(&mut self, id: &str) -> (r: Option<bool>)
        ensures
            r is None <==> no_note_with_id(old(self)@, id@),
            r is None ==> final(self)@ == old(self)@,
            r matches Some(p) ==> exists|i: int|
                first_with_id(old(self)@, id@, i) && p == !old(self)@[i].always_on_top
                    && final(self)@ == old(self)@.update(i, with_pin(old(self)@[i], p)),
    {
        match self.find_note(id) {
            Some(i) => {
                let ghost before = self@;
                let mut n = self.notes.remove(i);
                n.always_on_top = !n.always_on_top;
                let pinned = n.always_on_top;
                self.notes.insert(i, n);
                assert(self@ =~= before.update(i as int, with_pin(before[i as int], pinned)));
                Some(pinned)
            },
            None => None,
        }
    }

    /// Removes the first note with this id for good; tells whether there was
    /// such a note.
    pub fn delete_note(&mut self, id: &str) -> (found: bool)
        ensures
            found == !no_note_with_id(old(self)@, id@),
            !found ==> final(self)@ == old(self)@,
            found ==> exists|i: int|
                first_with_id(old(self)@, id@, i) && final(self)@ == old(self)@.remove(i),
    {
        match self.find_note(id) {
            Some(i) => {
                let ghost before = self@;
                let _removed = self.notes.remove(i);
                assert(self@ =~= before.remove(i as int));
                true
            },
            None => false,
        }
    }

    /// Sets the colour of the first note with this id; tells whether there
    /// was such a note.
    pub fn set_color(&mut self, id: &str, color: NoteColor) -> (found: bool)
        ensures
            found == !no_note_with_id(old(self)@, id@),
            !found ==> final(self)@ == old(self)@,
            found ==> exists|i: int|
                first_with_id(old(self)@, id@, i) && final(self)@ == old(self)@.update(
                    i,
                    with_color(old(self)@[i], color),
                ),
    {
        match self.find_note(id) {
            Some(i) => {
                let ghost before = self@;
                let mut n = self.notes.remove(i);
                n.color = color;
                self.notes.insert(i, n);
                assert(self@ =~= before.update(i as int, with_color(before[i as int], color)));
                true
            },
            None => false,
        }
    }
}

} // verus!
