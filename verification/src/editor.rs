//! The multi-line notes editor: a disposable projection of one creature's
//! notes, rebuilt from the stored text and cursor on every selection change
//! and written back on commit. It never holds state of its own that could
//! drift from the creature record.

use vstd::prelude::*;

use crate::keys::{KeyCode, KeyEvent};
use crate::text::{
    join_lines, join_lines_exec, lemma_split_lines_clean, lemma_split_lines_len, line_clean,
    lines_view, split_lines, split_lines_exec, string_push,
};
use vstd::std_specs::vec::vec_index_mut;

verus! {

/// The editable lines of one creature's notes, with the cursor between
/// characters: `row` picks a line, `col` a position within it.
#[derive(Debug, PartialEq)]
pub struct NotesEditor {
    pub lines: Vec<Vec<char>>,
    pub row: usize,
    pub col: usize,
}

#[verifier::ext_equal]
pub struct NotesEditorView {
    pub lines: Seq<Seq<char>>,
    pub row: int,
    pub col: int,
}

impl View for NotesEditor {
    type V = NotesEditorView;

    open spec fn view(&self) -> NotesEditorView {
        NotesEditorView { lines: lines_view(self.lines@), row: self.row as int, col: self.col as int }
    }
}

/// Well-formed editor state: at least one line, the cursor on a line and
/// within it, and no stray newline character inside any line.
pub open spec fn editor_wf(e: NotesEditorView) -> bool {
    &&& e.lines.len() >= 1
    &&& 0 <= e.row < e.lines.len()
    &&& 0 <= e.col <= e.lines[e.row].len()
    &&& forall|j: int| 0 <= j < e.lines.len() ==> line_clean(#[trigger] e.lines[j])
}

/// The blank editor: one empty line, cursor at its start.
pub open spec fn editor_empty() -> NotesEditorView {
    NotesEditorView { lines: seq![Seq::<char>::empty()], row: 0, col: 0 }
}

/// The editor rebuilt from stored notes and a stored cursor position, the
/// cursor clamped into the text.
pub open spec fn editor_seeded(notes: Seq<char>, r: int, c: int) -> NotesEditorView {
    let lines = split_lines(notes);
    let row = if 0 <= r < lines.len() {
        r
    } else {
        lines.len() - 1
    };
    let col = if 0 <= c <= lines[row].len() {
        c
    } else {
        lines[row].len() as int
    };
    NotesEditorView { lines, row, col }
}

/// Insert one character at the cursor.
pub open spec fn editor_insert(e: NotesEditorView, c: char) -> NotesEditorView {
    NotesEditorView {
        lines: e.lines.update(e.row, e.lines[e.row].insert(e.col, c)),
        row: e.row,
        col: e.col + 1,
    }
}

/// Break the current line at the cursor; the cursor moves to the start of
/// the new line.
pub open spec fn editor_newline(e: NotesEditorView) -> NotesEditorView {
    let line = e.lines[e.row];
    NotesEditorView {
        lines: e.lines.update(e.row, line.take(e.col)).insert(e.row + 1, line.skip(e.col)),
        row: e.row + 1,
        col: 0,
    }
}

/// Delete the character before the cursor; at the start of a line, join the
/// line onto the previous one.
pub open spec fn editor_backspace(e: NotesEditorView) -> NotesEditorView {
    if e.col > 0 {
        NotesEditorView {
            lines: e.lines.update(e.row, e.lines[e.row].remove(e.col - 1)),
            row: e.row,
            col: e.col - 1,
        }
    } else if e.row > 0 {
        let prev = e.lines[e.row - 1];
        NotesEditorView {
            lines: e.lines.remove(e.row).update(e.row - 1, prev + e.lines[e.row]),
            row: e.row - 1,
            col: prev.len() as int,
        }
    } else {
        e
    }
}

pub open spec fn editor_left(e: NotesEditorView) -> NotesEditorView {
    if e.col > 0 {
        NotesEditorView { lines: e.lines, row: e.row, col: e.col - 1 }
    } else if e.row > 0 {
        NotesEditorView { lines: e.lines, row: e.row - 1, col: e.lines[e.row - 1].len() as int }
    } else {
        e
    }
}

pub open spec fn editor_right(e: NotesEditorView) -> NotesEditorView {
    if e.col < e.lines[e.row].len() {
        NotesEditorView { lines: e.lines, row: e.row, col: e.col + 1 }
    } else if e.row + 1 < e.lines.len() {
        NotesEditorView { lines: e.lines, row: e.row + 1, col: 0 }
    } else {
        e
    }
}

pub open spec fn editor_up(e: NotesEditorView) -> NotesEditorView {
    if e.row > 0 {
        let target = e.lines[e.row - 1];
        NotesEditorView {
            lines: e.lines,
            row: e.row - 1,
            col: if e.col <= target.len() {
                e.col
            } else {
                target.len() as int
            },
        }
    } else {
        e
    }
}

pub open spec fn editor_down(e: NotesEditorView) -> NotesEditorView {
    if e.row + 1 < e.lines.len() {
        let target = e.lines[e.row + 1];
        NotesEditorView {
            lines: e.lines,
            row: e.row + 1,
            col: if e.col <= target.len() {
                e.col
            } else {
                target.len() as int
            },
        }
    } else {
        e
    }
}

/// What one forwarded input event does to the editor. A literal newline
/// character is refused as an insertion; line breaks come only from the
/// line-break key.
pub open spec fn editor_apply(e: NotesEditorView, ev: KeyEvent) -> NotesEditorView {
    match ev.code {
        KeyCode::Char(c) => if c != '\n' {
            editor_insert(e, c)
        } else {
            e
        },
        KeyCode::Backspace => editor_backspace(e),
        KeyCode::Enter => editor_newline(e),
        KeyCode::Left => editor_left(e),
        KeyCode::Right => editor_right(e),
        KeyCode::Up => editor_up(e),
        KeyCode::Down => editor_down(e),
        KeyCode::Esc => e,
    }
}

/// A seeded editor is always well formed, whatever was stored.
pub proof fn lemma_editor_seeded_wf(notes: Seq<char>, r: int, c: int)
    ensures
        editor_wf(editor_seeded(notes, r, c)),
{
    lemma_split_lines_len(notes);
    lemma_split_lines_clean(notes);
}

/// The blank editor is well formed.
pub proof fn lemma_editor_empty_wf()
    ensures
        editor_wf(editor_empty()),
{
}

/// Committing the editor and re-seeding from what was stored rebuilds the
/// very same editor, lines and cursor alike: switching away from a
/// creature and back resumes editing exactly where it stopped.
pub proof fn lemma_commit_reseed_round_trip(e: NotesEditorView)
    requires
        editor_wf(e),
    ensures
        editor_seeded(join_lines(e.lines), e.row, e.col) == e,
{
    crate::text::lemma_split_join(e.lines);
    assert(editor_seeded(join_lines(e.lines), e.row, e.col) =~~= e);
}

/// Seeding an editor from stored notes and committing it untouched stores
/// the very same notes: opening and closing the notes editor without any
/// edit is a no-op on the creature's text.
pub proof fn lemma_seed_commit_round_trip(notes: Seq<char>, r: int, c: int)
    ensures
        join_lines(editor_seeded(notes, r, c).lines) == notes,
{
    crate::text::lemma_join_split(notes);
}

/// Every forwarded event keeps the editor well formed.
pub proof fn lemma_editor_apply_wf(e: NotesEditorView, ev: KeyEvent)
    requires
        editor_wf(e),
    ensures
        editor_wf(editor_apply(e, ev)),
{
    match ev.code {
        KeyCode::Char(c) => {
            if c != '\n' {
                lemma_clean_insert(e.lines[e.row], e.col, c);
                lemma_clean_update(e.lines, e.row, e.lines[e.row].insert(e.col, c));
            }
        },
        KeyCode::Backspace => {
            if e.col > 0 {
                lemma_clean_remove(e.lines[e.row], e.col - 1);
                lemma_clean_update(e.lines, e.row, e.lines[e.row].remove(e.col - 1));
            } else if e.row > 0 {
                lemma_clean_remove_line(e.lines, e.row);
                lemma_clean_concat(e.lines[e.row - 1], e.lines[e.row]);
                lemma_clean_update(
                    e.lines.remove(e.row),
                    e.row - 1,
                    e.lines[e.row - 1] + e.lines[e.row],
                );
            }
        },
        KeyCode::Enter => {
            assert(line_clean(e.lines[e.row].take(e.col))) by {
                assert(forall|k: int|
                    0 <= k < e.col ==> e.lines[e.row].take(e.col)[k] == e.lines[e.row][k]);
            }
            assert(line_clean(e.lines[e.row].skip(e.col))) by {
                assert(forall|k: int|
                    0 <= k < e.lines[e.row].len() - e.col ==> e.lines[e.row].skip(e.col)[k]
                        == e.lines[e.row][k + e.col]);
            }
            lemma_clean_update(e.lines, e.row, e.lines[e.row].take(e.col));
            lemma_clean_insert_line(
                e.lines.update(e.row, e.lines[e.row].take(e.col)),
                e.row + 1,
                e.lines[e.row].skip(e.col),
            );
        },
        _ => {},
    }
}

impl NotesEditor {
    /// The blank editor: one empty line, cursor at its start.
    pub fn new_empty() -> (r: NotesEditor)
        ensures
            r@ == editor_empty(),
            editor_wf(r@),
    {
        let mut lines: Vec<Vec<char>> = Vec::new();
        lines.push(Vec::new());
        let r = NotesEditor { lines, row: 0, col: 0 };
        proof {
            assert(r@ =~~= editor_empty());
        }
        r
    }

    /// Rebuild the editor from stored notes and a stored cursor position.
    pub fn seed(notes: &str, row: usize, col: usize) -> (r: NotesEditor)
        ensures
            r@ == editor_seeded(notes@, row as int, col as int),
            editor_wf(r@),
    {
        let lines = split_lines_exec(notes);
        proof {
            lemma_split_lines_len(notes@);
            lemma_split_lines_clean(notes@);
        }
        let r = if row < lines.len() {
            row
        } else {
            lines.len() - 1
        };
        let line_len = lines[r].len();
        let c = if col <= line_len {
            col
        } else {
            line_len
        };
        let ed = NotesEditor { lines, row: r, col: c };
        proof {
            assert(ed@ =~~= editor_seeded(notes@, row as int, col as int));
        }
        ed
    }

    /// The stored form of the buffer: lines joined with newlines.
    pub fn contents(&self) -> (r: String)
        requires
            editor_wf(self@),
        ensures
            r@ == join_lines(self@.lines),
    {
        join_lines_exec(&self.lines)
    }

    /// The cursor position, to be snapshotted back onto the creature.
    pub fn cursor(&self) -> (r: (usize, usize))
        ensures
            r.0 as int == self@.row,
            r.1 as int == self@.col,
    {
        (self.row, self.col)
    }

    /// Apply one forwarded input event.
    pub fn input(&mut self, ev: KeyEvent)
        requires
            editor_wf(old(self)@),
        ensures
            final(self)@ == editor_apply(old(self)@, ev),
            editor_wf(final(self)@),
    {
        let ghost e = self@;
        match ev.code {
            KeyCode::Char(c) => {
                if c != '\n' {
                    let line = vec_index_mut(&mut self.lines, self.row);
                    line.insert(self.col, c);
                    let n = line.len();
                    assert(self.col + 1 <= n);
                    self.col = self.col + 1;
                    proof {
                        assert(self@ =~~= editor_insert(e, c));
                        lemma_clean_update(e.lines, e.row, e.lines[e.row].insert(e.col, c));
                        assert(line_clean(e.lines[e.row].insert(e.col, c))) by {
                            lemma_clean_insert(e.lines[e.row], e.col, c);
                        }
                    }
                }
            },
            KeyCode::Backspace => {
                if self.col > 0 {
                    let line = vec_index_mut(&mut self.lines, self.row);
                    line.remove(self.col - 1);
                    self.col = self.col - 1;
                    proof {
                        assert(self@ =~~= editor_backspace(e));
                        lemma_clean_update(e.lines, e.row, e.lines[e.row].remove(e.col - 1));
                        assert(line_clean(e.lines[e.row].remove(e.col - 1))) by {
                            lemma_clean_remove(e.lines[e.row], e.col - 1);
                        }
                    }
                } else if self.row > 0 {
                    let mut tail = self.lines.remove(self.row);
                    self.row = self.row - 1;
                    let prev = vec_index_mut(&mut self.lines, self.row);
                    self.col = prev.len();
                    prev.append(&mut tail);
                    proof {
                        assert(self@ =~~= editor_backspace(e));
                        lemma_clean_remove_line(e.lines, e.row);
                        lemma_clean_update(
                            e.lines.remove(e.row),
                            e.row - 1,
                            e.lines[e.row - 1] + e.lines[e.row],
                        );
                        assert(line_clean(e.lines[e.row - 1] + e.lines[e.row])) by {
                            lemma_clean_concat(e.lines[e.row - 1], e.lines[e.row]);
                        }
                    }
                }
            },
            KeyCode::Enter => {
                let n = self.lines.len();
                assert(self.row + 1 <= n);
                let line = vec_index_mut(&mut self.lines, self.row);
                let tail = line.split_off(self.col);
                self.lines.insert(self.row + 1, tail);
                self.row = self.row + 1;
                self.col = 0;
                proof {
                    assert(self@ =~~= editor_newline(e));
                    lemma_clean_update(e.lines, e.row, e.lines[e.row].take(e.col));
                    lemma_clean_insert_line(
                        e.lines.update(e.row, e.lines[e.row].take(e.col)),
                        e.row + 1,
                        e.lines[e.row].skip(e.col),
                    );
                    assert(line_clean(e.lines[e.row].take(e.col)));
                    assert(line_clean(e.lines[e.row].skip(e.col)));
                }
            },
            KeyCode::Left => {
                if self.col > 0 {
                    self.col = self.col - 1;
                } else if self.row > 0 {
                    self.row = self.row - 1;
                    self.col = self.lines[self.row].len();
                }
                proof {
                    assert(self@ =~~= editor_left(e));
                }
            },
            KeyCode::Right => {
                let n = self.lines.len();
                assert(self.row < n);
                if self.col < self.lines[self.row].len() {
                    self.col = self.col + 1;
                } else if self.row + 1 < n {
                    self.row = self.row + 1;
                    self.col = 0;
                }
                proof {
                    assert(self@ =~~= editor_right(e));
                }
            },
            KeyCode::Up => {
                if self.row > 0 {
                    self.row = self.row - 1;
                    let target_len = self.lines[self.row].len();
                    if self.col > target_len {
                        self.col = target_len;
                    }
                }
                proof {
                    assert(self@ =~~= editor_up(e));
                }
            },
            KeyCode::Down => {
                let n = self.lines.len();
                assert(self.row < n);
                if self.row + 1 < n {
                    self.row = self.row + 1;
                    let target_len = self.lines[self.row].len();
                    if self.col > target_len {
                        self.col = target_len;
                    }
                }
                proof {
                    assert(self@ =~~= editor_down(e));
                }
            },
            KeyCode::Esc => {},
        }
    }

    /// The lines as fresh strings, for drawing.
    pub fn line_strings(&self) -> (r: Vec<String>)
        ensures
            r@.len() == self@.lines.len(),
            forall|j: int| 0 <= j < r@.len() ==> #[trigger] r@[j]@ == self@.lines[j],
    {
        let mut out: Vec<String> = Vec::new();
        let mut j: usize = 0;
        while j < self.lines.len()
            invariant
                j <= self.lines@.len(),
                out@.len() == j,
                forall|i: int| 0 <= i < j ==> #[trigger] out@[i]@ == lines_view(self.lines@)[i],
            decreases self.lines@.len() - j,
        {
            let line = &self.lines[j];
            let mut s = String::new();
            let mut k: usize = 0;
            while k < line.len()
                invariant
                    k <= line@.len(),
                    s@ =~= line@.take(k as int),
                decreases line@.len() - k,
            {
                string_push(&mut s, line[k]);
                proof {
                    assert(line@.take(k as int + 1) =~= line@.take(k as int).push(line@[k as int]));
                }
                k = k + 1;
            }
            proof {
                assert(line@.take(line@.len() as int) =~= line@);
            }
            out.push(s);
            j = j + 1;
        }
        out
    }
}

proof fn lemma_clean_insert(l: Seq<char>, i: int, c: char)
    requires
        line_clean(l),
        c != '\n',
        0 <= i <= l.len(),
    ensures
        line_clean(l.insert(i, c)),
{
    let r = l.insert(i, c);
    assert forall|k: int| 0 <= k < r.len() implies #[trigger] r[k] != '\n' by {
        if k < i {
            assert(r[k] == l[k]);
        } else if k == i {
            assert(r[k] == c);
        } else {
            assert(r[k] == l[k - 1]);
        }
    }
}

proof fn lemma_clean_remove(l: Seq<char>, i: int)
    requires
        line_clean(l),
        0 <= i < l.len(),
    ensures
        line_clean(l.remove(i)),
{
    let r = l.remove(i);
    assert forall|k: int| 0 <= k < r.len() implies #[trigger] r[k] != '\n' by {
        if k < i {
            assert(r[k] == l[k]);
        } else {
            assert(r[k] == l[k + 1]);
        }
    }
}

proof fn lemma_clean_concat(a: Seq<char>, b: Seq<char>)
    requires
        line_clean(a),
        line_clean(b),
    ensures
        line_clean(a + b),
{
    assert forall|k: int| 0 <= k < (a + b).len() implies #[trigger] (a + b)[k] != '\n' by {
        if k < a.len() {
            assert((a + b)[k] == a[k]);
        } else {
            assert((a + b)[k] == b[k - a.len()]);
        }
    }
}

proof fn lemma_clean_update(ls: Seq<Seq<char>>, i: int, l: Seq<char>)
    requires
        forall|j: int| 0 <= j < ls.len() ==> line_clean(#[trigger] ls[j]),
        line_clean(l),
        0 <= i < ls.len(),
    ensures
        forall|j: int| 0 <= j < ls.update(i, l).len() ==> line_clean(#[trigger] ls.update(i, l)[j]),
{
    assert forall|j: int| 0 <= j < ls.update(i, l).len() implies line_clean(
        #[trigger] ls.update(i, l)[j],
    ) by {
        if j == i {
            assert(ls.update(i, l)[j] == l);
        } else {
            assert(ls.update(i, l)[j] == ls[j]);
        }
    }
}

proof fn lemma_clean_insert_line(ls: Seq<Seq<char>>, i: int, l: Seq<char>)
    requires
        forall|j: int| 0 <= j < ls.len() ==> line_clean(#[trigger] ls[j]),
        line_clean(l),
        0 <= i <= ls.len(),
    ensures
        forall|j: int| 0 <= j < ls.insert(i, l).len() ==> line_clean(#[trigger] ls.insert(i, l)[j]),
{
    assert forall|j: int| 0 <= j < ls.insert(i, l).len() implies line_clean(
        #[trigger] ls.insert(i, l)[j],
    ) by {
        if j < i {
            assert(ls.insert(i, l)[j] == ls[j]);
        } else if j == i {
            assert(ls.insert(i, l)[j] == l);
        } else {
            assert(ls.insert(i, l)[j] == ls[j - 1]);
        }
    }
}

proof fn lemma_clean_remove_line(ls: Seq<Seq<char>>, i: int)
    requires
        forall|j: int| 0 <= j < ls.len() ==> line_clean(#[trigger] ls[j]),
        0 <= i < ls.len(),
    ensures
        forall|j: int| 0 <= j < ls.remove(i).len() ==> line_clean(#[trigger] ls.remove(i)[j]),
{
    assert forall|j: int| 0 <= j < ls.remove(i).len() implies line_clean(
        #[trigger] ls.remove(i)[j],
    ) by {
        if j < i {
            assert(ls.remove(i)[j] == ls[j]);
        } else {
            assert(ls.remove(i)[j] == ls[j + 1]);
        }
    }
}

} // verus!
