//! The modal state machine: the current interaction mode, the roster, the
//! hovered selection and the notes editor, together with the transition
//! function that interprets one key event at a time.
//!
//! Every edit mode owns its in-progress buffer. A creature's stored field
//! keeps its pre-edit value until the edit is confirmed, so cancelling is a
//! true no-op against the stored value. The one exception is the pending
//! health shift, which the data model places on the creature itself; it is
//! cleared on both confirm and cancel and never outlives its mode.

use vstd::prelude::*;

use crate::creature::{Creature, CreatureView, HealthShift, HealthShiftView};
use crate::editor::{
    editor_apply, editor_empty, editor_seeded, editor_wf, lemma_editor_apply_wf,
    lemma_editor_seeded_wf, NotesEditor, NotesEditorView,
};
use crate::keys::{KeyCode, KeyEvent};
use crate::num::{
    buffer_backspace, buffer_push_digit, char_digit, in_i32, is_digit_char, lemma_backspace,
    lemma_push_digit, numeric_edit, NumericAction,
};
use crate::sort::{
    lemma_sort_spec_elements, lemma_sort_spec_len, roster_view, sort_creatures, sort_spec,
    SortField,
};
use crate::text::{join_lines, string_pop, string_push};
use vstd::std_specs::vec::vec_index_mut;
use vstd::string::StringExecFns;

verus! {

/// The interaction mode. Each edit variant owns exactly the in-progress
/// buffer it needs; there is no separate undo state.
#[derive(Debug, PartialEq)]
pub enum Mode {
    /// The hotkey overview.
    Help,
    /// Browsing the roster; all actions start here.
    Normal,
    /// The quit confirmation; `true` means the quit option is highlighted.
    ConfirmQuit(bool),
    /// Renaming the hovered creature; the buffer holds the in-progress name.
    Rename(String),
    /// Numeric edit of the hovered creature's health; the buffer holds the
    /// in-progress value.
    SetHealth(i32),
    /// Numeric edit of the hovered creature's initiative.
    SetInitiative(i32),
    /// Numeric edit of the pending shift's magnitude, which lives on the
    /// hovered creature.
    HealthShift,
    /// The notes editor is receiving input.
    EditNotes,
    /// Waiting for a sort axis key.
    Sort,
}

#[verifier::ext_equal]
pub enum ModeView {
    Help,
    Normal,
    ConfirmQuit(bool),
    Rename(Seq<char>),
    SetHealth(int),
    SetInitiative(int),
    HealthShift,
    EditNotes,
    Sort,
}

impl View for Mode {
    type V = ModeView;

    open spec fn view(&self) -> ModeView {
        match self {
            Mode::Help => ModeView::Help,
            Mode::Normal => ModeView::Normal,
            Mode::ConfirmQuit(q) => ModeView::ConfirmQuit(*q),
            Mode::Rename(buf) => ModeView::Rename(buf@),
            Mode::SetHealth(v) => ModeView::SetHealth(*v as int),
            Mode::SetInitiative(v) => ModeView::SetInitiative(*v as int),
            Mode::HealthShift => ModeView::HealthShift,
            Mode::EditNotes => ModeView::EditNotes,
            Mode::Sort => ModeView::Sort,
        }
    }
}

/// Modes that only make sense while a creature is hovered.
pub open spec fn mode_needs_selection(m: ModeView) -> bool {
    match m {
        ModeView::Rename(_) => true,
        ModeView::SetHealth(_) => true,
        ModeView::SetInitiative(_) => true,
        ModeView::HealthShift => true,
        ModeView::EditNotes => true,
        _ => false,
    }
}

/// The whole application state.
#[derive(Debug, PartialEq)]
pub struct App {
    pub running: bool,
    pub mode: Mode,
    pub selected_creature: Option<usize>,
    pub creatures: Vec<Creature>,
    pub editor: NotesEditor,
}

#[verifier::ext_equal]
pub struct AppView {
    pub running: bool,
    pub mode: ModeView,
    pub selected: Option<int>,
    pub creatures: Seq<CreatureView>,
    pub editor: NotesEditorView,
}

impl View for App {
    type V = AppView;

    open spec fn view(&self) -> AppView {
        AppView {
            running: self.running,
            mode: self.mode@,
            selected: match self.selected_creature {
                Some(i) => Some(i as int),
                None => None,
            },
            creatures: roster_view(self.creatures@),
            editor: self.editor@,
        }
    }
}

pub open spec fn creature_wf(c: CreatureView) -> bool {
    &&& in_i32(c.health)
    &&& in_i32(c.initiative)
    &&& match c.shift {
        Some(sv) => 0 <= sv.magnitude <= 0x7fff_ffff,
        None => true,
    }
    &&& c.cursor_row >= 0
    &&& c.cursor_col >= 0
}

pub open spec fn mode_wf(m: ModeView) -> bool {
    match m {
        ModeView::SetHealth(v) => in_i32(v),
        ModeView::SetInitiative(v) => in_i32(v),
        _ => true,
    }
}

/// The state invariant. Selection is `none` exactly when the roster is
/// empty and otherwise a valid index; a mode that edits a creature has one
/// hovered; a pending health shift exists exactly on the hovered creature
/// during a health-shift edit; and all numbers fit their machine types.
pub open spec fn app_wf(s: AppView) -> bool {
    &&& match s.selected {
        Some(i) => 0 <= i < s.creatures.len(),
        None => s.creatures.len() == 0,
    }
    &&& s.creatures.len() > 0 ==> s.selected is Some
    &&& mode_needs_selection(s.mode) ==> s.selected is Some
    &&& s.mode is HealthShift ==> s.creatures[s.selected->0].shift is Some
    &&& forall|j: int|
        0 <= j < s.creatures.len() ==> (#[trigger] s.creatures[j].shift is Some ==> s.mode
            is HealthShift && s.selected == Some(j))
    &&& forall|j: int| 0 <= j < s.creatures.len() ==> creature_wf(#[trigger] s.creatures[j])
    &&& mode_wf(s.mode)
    &&& editor_wf(s.editor)
}

impl AppView {
    pub open spec fn with_mode(self, m: ModeView) -> AppView {
        AppView {
            running: self.running,
            mode: m,
            selected: self.selected,
            creatures: self.creatures,
            editor: self.editor,
        }
    }

    pub open spec fn with_creatures(self, cs: Seq<CreatureView>) -> AppView {
        AppView {
            running: self.running,
            mode: self.mode,
            selected: self.selected,
            creatures: cs,
            editor: self.editor,
        }
    }

    pub open spec fn with_creature(self, i: int, c: CreatureView) -> AppView {
        self.with_creatures(self.creatures.update(i, c))
    }

    pub open spec fn stopped(self) -> AppView {
        AppView {
            running: false,
            mode: self.mode,
            selected: self.selected,
            creatures: self.creatures,
            editor: self.editor,
        }
    }
}

/// Hovering index `i`: the selection moves and the notes editor is rebuilt
/// from that creature's stored notes and cursor.
pub open spec fn select_spec(s: AppView, i: int) -> AppView {
    AppView {
        running: s.running,
        mode: s.mode,
        selected: Some(i),
        creatures: s.creatures,
        editor: editor_seeded(s.creatures[i].notes, s.creatures[i].cursor_row, s.creatures[i].cursor_col),
    }
}

/// One step of the state machine in `Normal` mode.
pub open spec fn step_normal(s: AppView, ev: KeyEvent) -> AppView {
    let n = s.creatures.len() as int;
    match ev.code {
        KeyCode::Esc => s.with_mode(ModeView::ConfirmQuit(false)),
        KeyCode::Char(c) => if c == '?' {
            s.with_mode(ModeView::Help)
        } else if c == 's' {
            s.with_mode(ModeView::Sort)
        } else if c == 'K' {
            if n > 0 {
                select_spec(s, 0)
            } else {
                s
            }
        } else if c == 'k' {
            if n > 0 {
                let cur = match s.selected {
                    Some(i) => i,
                    None => 0,
                };
                select_spec(
                    s,
                    if cur == 0 {
                        n - 1
                    } else {
                        cur - 1
                    },
                )
            } else {
                s
            }
        } else if c == 'j' {
            if n > 0 {
                let nxt = match s.selected {
                    Some(i) => (i + 1) % n,
                    None => 0,
                };
                select_spec(s, nxt)
            } else {
                s
            }
        } else if c == 'J' {
            if n > 0 {
                select_spec(s, n - 1)
            } else {
                s
            }
        } else if c == 'a' {
            let grown = s.with_creatures(s.creatures.push(CreatureView::empty()));
            select_spec(grown, n).with_mode(ModeView::Rename(Seq::empty()))
        } else if c == 'r' {
            match s.selected {
                Some(i) => s.with_mode(ModeView::Rename(s.creatures[i].name)),
                None => s,
            }
        } else if c == 'n' {
            match s.selected {
                Some(i) => s.with_mode(ModeView::EditNotes),
                None => s,
            }
        } else if c == 'c' {
            match s.selected {
                Some(i) => s.with_creatures(s.creatures.insert(i + 1, s.creatures[i])),
                None => s,
            }
        } else if c == 'd' {
            match s.selected {
                Some(i) => {
                    let rest = s.with_creatures(s.creatures.remove(i));
                    let m = rest.creatures.len() as int;
                    if m == 0 {
                        AppView {
                            running: rest.running,
                            mode: rest.mode,
                            selected: None,
                            creatures: rest.creatures,
                            editor: editor_empty(),
                        }
                    } else if i == m {
                        select_spec(rest, m - 1)
                    } else {
                        select_spec(rest, i)
                    }
                },
                None => s,
            }
        } else if c == 'h' {
            match s.selected {
                Some(i) => s.with_mode(ModeView::SetHealth(s.creatures[i].health)),
                None => s,
            }
        } else if c == 'i' {
            match s.selected {
                Some(i) => s.with_mode(ModeView::SetInitiative(s.creatures[i].initiative)),
                None => s,
            }
        } else if c == '-' || c == '+' {
            match s.selected {
                Some(i) => s.with_creature(
                    i,
                    s.creatures[i].with_shift(
                        Some(HealthShiftView { negative: c == '-', magnitude: 0 }),
                    ),
                ).with_mode(ModeView::HealthShift),
                None => s,
            }
        } else {
            s
        },
        _ => s,
    }
}

/// One step in the quit confirmation.
pub open spec fn step_confirm_quit(s: AppView, q: bool, ev: KeyEvent) -> AppView {
    match ev.code {
        KeyCode::Esc => s.with_mode(ModeView::Normal),
        KeyCode::Enter => if q {
            s.stopped()
        } else {
            s.with_mode(ModeView::Normal)
        },
        KeyCode::Char(c) => if c == 'j' || c == 'k' {
            s.with_mode(ModeView::ConfirmQuit(!q))
        } else {
            s
        },
        _ => s,
    }
}

pub open spec fn step_help(s: AppView, ev: KeyEvent) -> AppView {
    match ev.code {
        KeyCode::Esc => s.with_mode(ModeView::Normal),
        _ => s,
    }
}

/// One step in sort-axis selection: a letter sorts and returns to `Normal`,
/// its uppercase variant sorts descending.
pub open spec fn step_sort(s: AppView, ev: KeyEvent) -> AppView {
    match ev.code {
        KeyCode::Esc => s.with_mode(ModeView::Normal),
        KeyCode::Char(c) => if c == 'i' {
            s.with_creatures(sort_spec(SortField::Initiative, false, s.creatures)).with_mode(
                ModeView::Normal,
            )
        } else if c == 'I' {
            s.with_creatures(sort_spec(SortField::Initiative, true, s.creatures)).with_mode(
                ModeView::Normal,
            )
        } else if c == 'h' {
            s.with_creatures(sort_spec(SortField::Health, false, s.creatures)).with_mode(
                ModeView::Normal,
            )
        } else if c == 'H' {
            s.with_creatures(sort_spec(SortField::Health, true, s.creatures)).with_mode(
                ModeView::Normal,
            )
        } else if c == 'n' {
            s.with_creatures(sort_spec(SortField::Name, false, s.creatures)).with_mode(
                ModeView::Normal,
            )
        } else if c == 'N' {
            s.with_creatures(sort_spec(SortField::Name, true, s.creatures)).with_mode(
                ModeView::Normal,
            )
        } else {
            s
        },
        _ => s,
    }
}

/// One step of a rename: the buffer lives in the mode, the stored name
/// stays untouched until confirm.
pub open spec fn step_rename(s: AppView, ev: KeyEvent) -> AppView {
    match (s.mode, s.selected) {
        (ModeView::Rename(buf), Some(i)) => match ev.code {
            KeyCode::Enter => s.with_creature(i, s.creatures[i].with_name(buf)).with_mode(
                ModeView::Normal,
            ),
            KeyCode::Esc => s.with_mode(ModeView::Normal),
            KeyCode::Backspace => s.with_mode(
                ModeView::Rename(
                    if buf.len() > 0 {
                        buf.drop_last()
                    } else {
                        buf
                    },
                ),
            ),
            KeyCode::Char(ch) => s.with_mode(ModeView::Rename(buf.push(ch))),
            _ => s,
        },
        _ => s,
    }
}

/// One step of the health edit: digits and backspace reshape the buffer,
/// confirm writes it to the creature, cancel drops it.
pub open spec fn step_set_health(s: AppView, ev: KeyEvent) -> AppView {
    match (s.mode, s.selected) {
        (ModeView::SetHealth(buf), Some(i)) => match ev.code {
            KeyCode::Enter => s.with_creature(i, s.creatures[i].with_health(buf)).with_mode(
                ModeView::Normal,
            ),
            KeyCode::Esc => s.with_mode(ModeView::Normal),
            KeyCode::Backspace => s.with_mode(ModeView::SetHealth(buffer_backspace(buf))),
            KeyCode::Char(c) => if is_digit_char(c) {
                s.with_mode(ModeView::SetHealth(buffer_push_digit(buf, char_digit(c))))
            } else {
                s
            },
            _ => s,
        },
        _ => s,
    }
}

/// One step of the initiative edit, exactly as the health edit.
pub open spec fn step_set_initiative(s: AppView, ev: KeyEvent) -> AppView {
    match (s.mode, s.selected) {
        (ModeView::SetInitiative(buf), Some(i)) => match ev.code {
            KeyCode::Enter => s.with_creature(i, s.creatures[i].with_initiative(buf)).with_mode(
                ModeView::Normal,
            ),
            KeyCode::Esc => s.with_mode(ModeView::Normal),
            KeyCode::Backspace => s.with_mode(ModeView::SetInitiative(buffer_backspace(buf))),
            KeyCode::Char(c) => if is_digit_char(c) {
                s.with_mode(ModeView::SetInitiative(buffer_push_digit(buf, char_digit(c))))
            } else {
                s
            },
            _ => s,
        },
        _ => s,
    }
}

/// Health clamped into the machine range on applying a shift.
pub open spec fn sat_i32(v: int) -> int {
    if v < -0x8000_0000 {
        -0x8000_0000
    } else if v > 0x7fff_ffff {
        0x7fff_ffff
    } else {
        v
    }
}

/// One step of the health-shift edit: the buffer is the magnitude of the
/// pending shift on the hovered creature. Confirm applies the signed
/// magnitude to health and clears the slot; cancel only clears the slot.
pub open spec fn step_health_shift(s: AppView, ev: KeyEvent) -> AppView {
    match s.selected {
        Some(i) => match s.creatures[i].shift {
            Some(sv) => match ev.code {
                KeyCode::Enter => {
                    let applied = if sv.negative {
                        s.creatures[i].health - sv.magnitude
                    } else {
                        s.creatures[i].health + sv.magnitude
                    };
                    s.with_creature(
                        i,
                        s.creatures[i].with_health_and_shift(sat_i32(applied), None),
                    ).with_mode(ModeView::Normal)
                },
                KeyCode::Esc => s.with_creature(i, s.creatures[i].with_shift(None)).with_mode(
                    ModeView::Normal,
                ),
                KeyCode::Backspace => s.with_creature(
                    i,
                    s.creatures[i].with_shift(
                        Some(
                            HealthShiftView {
                                negative: sv.negative,
                                magnitude: buffer_backspace(sv.magnitude),
                            },
                        ),
                    ),
                ),
                KeyCode::Char(c) => if is_digit_char(c) {
                    s.with_creature(
                        i,
                        s.creatures[i].with_shift(
                            Some(
                                HealthShiftView {
                                    negative: sv.negative,
                                    magnitude: buffer_push_digit(sv.magnitude, char_digit(c)),
                                },
                            ),
                        ),
                    )
                } else {
                    s
                },
                _ => s,
            },
            None => s,
        },
        None => s,
    }
}

/// Exit keys for the notes editor: the cancel key, or an unqualified
/// confirm key. A modifier-qualified confirm key is a literal line break
/// and stays inside the editor.
pub open spec fn notes_exit(ev: KeyEvent) -> bool {
    ev.press && (ev.code is Esc || (ev.code is Enter && !ev.alt))
}

/// One step of the notes editor: leaving commits the joined lines and the
/// cursor onto the creature; everything else is forwarded verbatim.
pub open spec fn step_edit_notes(s: AppView, ev: KeyEvent) -> AppView {
    match s.selected {
        Some(i) => if notes_exit(ev) {
            s.with_creature(
                i,
                s.creatures[i].with_notes(join_lines(s.editor.lines), s.editor.row, s.editor.col),
            ).with_mode(ModeView::Normal)
        } else {
            AppView {
                running: s.running,
                mode: s.mode,
                selected: s.selected,
                creatures: s.creatures,
                editor: editor_apply(s.editor, ev),
            }
        },
        None => s,
    }
}

/// The transition function: what one key event does to the whole state.
/// Events other than presses are ignored everywhere but in the notes
/// editor, which takes input events verbatim.
pub open spec fn step(s: AppView, ev: KeyEvent) -> AppView {
    if !ev.press && !(s.mode is EditNotes) {
        s
    } else {
        match s.mode {
            ModeView::Normal => step_normal(s, ev),
            ModeView::ConfirmQuit(q) => step_confirm_quit(s, q, ev),
            ModeView::Help => step_help(s, ev),
            ModeView::Sort => step_sort(s, ev),
            ModeView::Rename(_) => step_rename(s, ev),
            ModeView::SetHealth(_) => step_set_health(s, ev),
            ModeView::SetInitiative(_) => step_set_initiative(s, ev),
            ModeView::HealthShift => step_health_shift(s, ev),
            ModeView::EditNotes => step_edit_notes(s, ev),
        }
    }
}

/// The demonstration roster offered at start-up.
pub open spec fn demo_roster() -> Seq<CreatureView> {
    seq![
        CreatureView {
            name: "Goblin"@,
            health: 5,
            shift: None,
            initiative: 0,
            notes: "Very gobliny"@,
            cursor_row: 0,
            cursor_col: 0,
        },
        CreatureView {
            name: "Chodlin"@,
            health: 4,
            shift: None,
            initiative: 0,
            notes: "Cousin of Boblin"@,
            cursor_row: 0,
            cursor_col: 0,
        },
        CreatureView {
            name: "Boblin"@,
            health: 4,
            shift: None,
            initiative: 0,
            notes: "The goblin"@,
            cursor_row: 0,
            cursor_col: 0,
        },
    ]
}

/// The initial state: running, in `Normal` mode, with either an empty
/// roster and no selection or the demonstration roster with its first
/// entry selected.
pub open spec fn init_spec(demo: bool) -> AppView {
    AppView {
        running: true,
        mode: ModeView::Normal,
        selected: if demo {
            Some(0)
        } else {
            None
        },
        creatures: if demo {
            demo_roster()
        } else {
            Seq::empty()
        },
        editor: editor_empty(),
    }
}

proof fn lemma_select_wf(s: AppView, i: int)
    requires
        0 <= i < s.creatures.len(),
        !(s.mode is HealthShift),
        mode_wf(s.mode),
        editor_wf(s.editor),
        forall|j: int| 0 <= j < s.creatures.len() ==> creature_wf(#[trigger] s.creatures[j]),
        forall|j: int| 0 <= j < s.creatures.len() ==> (#[trigger] s.creatures[j]).shift is None,
    ensures
        app_wf(select_spec(s, i)),
{
    lemma_editor_seeded_wf(
        s.creatures[i].notes,
        s.creatures[i].cursor_row,
        s.creatures[i].cursor_col,
    );
}

proof fn lemma_normal_wf(s: AppView, ev: KeyEvent)
    requires
        app_wf(s),
        s.mode is Normal,
    ensures
        app_wf(step_normal(s, ev)),
{
    let n = s.creatures.len() as int;
    assert forall|j: int| 0 <= j < n implies (#[trigger] s.creatures[j]).shift is None by {}
    match ev.code {
        KeyCode::Char(c) => {
            if c == 'K' {
                if n > 0 {
                    lemma_select_wf(s, 0);
                }
            } else if c == 'k' {
                if n > 0 {
                    let cur = match s.selected {
                        Some(i) => i,
                        None => 0,
                    };
                    lemma_select_wf(
                        s,
                        if cur == 0 {
                            n - 1
                        } else {
                            cur - 1
                        },
                    );
                }
            } else if c == 'j' {
                if n > 0 {
                    let nxt = match s.selected {
                        Some(i) => (i + 1) % n,
                        None => 0,
                    };
                    lemma_select_wf(s, nxt);
                }
            } else if c == 'J' {
                if n > 0 {
                    lemma_select_wf(s, n - 1);
                }
            } else if c == 'a' {
                let grown = s.with_creatures(s.creatures.push(CreatureView::empty()));
                assert forall|j: int| 0 <= j < grown.creatures.len() implies creature_wf(
                    #[trigger] grown.creatures[j],
                ) && grown.creatures[j].shift is None by {
                    if j < n {
                        assert(grown.creatures[j] == s.creatures[j]);
                        assert(creature_wf(s.creatures[j]));
                    } else {
                        assert(grown.creatures[j] == CreatureView::empty());
                    }
                }
                lemma_select_wf(grown, n);
                assert(app_wf(step_normal(s, ev)));
            } else if c == 'c' {
                match s.selected {
                    Some(i) => {
                        let grown = s.creatures.insert(i + 1, s.creatures[i]);
                        assert forall|j: int| 0 <= j < grown.len() implies creature_wf(
                            #[trigger] grown[j],
                        ) && grown[j].shift is None by {
                            if j <= i {
                                assert(grown[j] == s.creatures[j]);
                            } else if j == i + 1 {
                                assert(grown[j] == s.creatures[i]);
                            } else {
                                assert(grown[j] == s.creatures[j - 1]);
                            }
                            assert(creature_wf(s.creatures[if j <= i {
                                j
                            } else if j == i + 1 {
                                i
                            } else {
                                j - 1
                            }]));
                        }
                    },
                    None => {},
                }
            } else if c == 'd' {
                match s.selected {
                    Some(i) => {
                        let rest = s.with_creatures(s.creatures.remove(i));
                        let m = rest.creatures.len() as int;
                        assert forall|j: int| 0 <= j < m implies creature_wf(
                            #[trigger] rest.creatures[j],
                        ) && rest.creatures[j].shift is None by {
                            if j < i {
                                assert(rest.creatures[j] == s.creatures[j]);
                            } else {
                                assert(rest.creatures[j] == s.creatures[j + 1]);
                            }
                        }
                        if m == 0 {
                        } else if i == m {
                            lemma_select_wf(rest, m - 1);
                        } else {
                            assert(i < m);
                            lemma_select_wf(rest, i);
                        }
                    },
                    None => {},
                }
            } else if c == 'h' || c == 'i' {
                match s.selected {
                    Some(i) => {
                        assert(creature_wf(s.creatures[i]));
                    },
                    None => {},
                }
            } else if c == '-' || c == '+' {
                match s.selected {
                    Some(i) => {
                        let updated = s.creatures.update(
                            i,
                            s.creatures[i].with_shift(
                                Some(HealthShiftView { negative: c == '-', magnitude: 0 }),
                            ),
                        );
                        assert forall|j: int| 0 <= j < updated.len() implies creature_wf(
                            #[trigger] updated[j],
                        ) by {
                            if j != i {
                                assert(updated[j] == s.creatures[j]);
                            }
                            assert(creature_wf(s.creatures[j]));
                        }
                    },
                    None => {},
                }
            }
        },
        _ => {},
    }
}

proof fn lemma_sorted_roster_wf(s: AppView, f: SortField, desc: bool)
    requires
        app_wf(s),
        s.mode is Sort,
    ensures
        app_wf(s.with_creatures(sort_spec(f, desc, s.creatures)).with_mode(ModeView::Normal)),
{
    let sorted = sort_spec(f, desc, s.creatures);
    lemma_sort_spec_len(f, desc, s.creatures);
    assert forall|j: int| 0 <= j < sorted.len() implies creature_wf(#[trigger] sorted[j])
        && sorted[j].shift is None by {
        lemma_sort_spec_elements(f, desc, s.creatures, j);
        let k = choose|k: int| 0 <= k < s.creatures.len() && sorted[j] == s.creatures[k];
        assert(creature_wf(s.creatures[k]));
    }
}

proof fn lemma_sort_wf(s: AppView, ev: KeyEvent)
    requires
        app_wf(s),
        s.mode is Sort,
    ensures
        app_wf(step_sort(s, ev)),
{
    match ev.code {
        KeyCode::Char(c) => {
            if c == 'i' {
                lemma_sorted_roster_wf(s, SortField::Initiative, false);
            } else if c == 'I' {
                lemma_sorted_roster_wf(s, SortField::Initiative, true);
            } else if c == 'h' {
                lemma_sorted_roster_wf(s, SortField::Health, false);
            } else if c == 'H' {
                lemma_sorted_roster_wf(s, SortField::Health, true);
            } else if c == 'n' {
                lemma_sorted_roster_wf(s, SortField::Name, false);
            } else if c == 'N' {
                lemma_sorted_roster_wf(s, SortField::Name, true);
            }
        },
        _ => {},
    }
}

proof fn lemma_updated_creature_wf(s: AppView, i: int, c: CreatureView, m: ModeView)
    requires
        app_wf(s),
        0 <= i < s.creatures.len(),
        creature_wf(c),
        c.shift is None,
        !(m is HealthShift),
        mode_wf(m),
        mode_needs_selection(m) ==> s.selected is Some,
        forall|j: int|
            0 <= j < s.creatures.len() && j != i ==> (#[trigger] s.creatures[j]).shift is None,
    ensures
        app_wf(s.with_creature(i, c).with_mode(m)),
{
    let r = s.with_creature(i, c).with_mode(m);
    assert forall|j: int| 0 <= j < r.creatures.len() implies creature_wf(#[trigger] r.creatures[j])
        && r.creatures[j].shift is None by {
        if j == i {
            assert(r.creatures[j] == c);
        } else {
            assert(r.creatures[j] == s.creatures[j]);
            assert(creature_wf(s.creatures[j]));
        }
    }
}

proof fn lemma_rename_wf(s: AppView, ev: KeyEvent)
    requires
        app_wf(s),
        s.mode is Rename,
    ensures
        app_wf(step_rename(s, ev)),
{
    match (s.mode, s.selected) {
        (ModeView::Rename(buf), Some(i)) => {
            assert(creature_wf(s.creatures[i]));
            match ev.code {
                KeyCode::Enter => {
                    lemma_updated_creature_wf(
                        s,
                        i,
                        s.creatures[i].with_name(buf),
                        ModeView::Normal,
                    );
                },
                _ => {},
            }
        },
        _ => {},
    }
}

proof fn lemma_set_health_wf(s: AppView, ev: KeyEvent)
    requires
        app_wf(s),
        s.mode is SetHealth,
    ensures
        app_wf(step_set_health(s, ev)),
{
    match (s.mode, s.selected) {
        (ModeView::SetHealth(buf), Some(i)) => {
            assert(creature_wf(s.creatures[i]));
            match ev.code {
                KeyCode::Enter => {
                    lemma_updated_creature_wf(
                        s,
                        i,
                        s.creatures[i].with_health(buf),
                        ModeView::Normal,
                    );
                },
                _ => {},
            }
        },
        _ => {},
    }
}

proof fn lemma_set_initiative_wf(s: AppView, ev: KeyEvent)
    requires
        app_wf(s),
        s.mode is SetInitiative,
    ensures
        app_wf(step_set_initiative(s, ev)),
{
    match (s.mode, s.selected) {
        (ModeView::SetInitiative(buf), Some(i)) => {
            assert(creature_wf(s.creatures[i]));
            match ev.code {
                KeyCode::Enter => {
                    lemma_updated_creature_wf(
                        s,
                        i,
                        s.creatures[i].with_initiative(buf),
                        ModeView::Normal,
                    );
                },
                _ => {},
            }
        },
        _ => {},
    }
}

proof fn lemma_health_shift_wf(s: AppView, ev: KeyEvent)
    requires
        app_wf(s),
        s.mode is HealthShift,
    ensures
        app_wf(step_health_shift(s, ev)),
{
    match s.selected {
        Some(i) => {
            assert(creature_wf(s.creatures[i]));
            match s.creatures[i].shift {
                Some(sv) => {
                    match ev.code {
                        KeyCode::Enter => {
                            let applied = if sv.negative {
                                s.creatures[i].health - sv.magnitude
                            } else {
                                s.creatures[i].health + sv.magnitude
                            };
                            lemma_updated_creature_wf(
                                s,
                                i,
                                s.creatures[i].with_health_and_shift(sat_i32(applied), None),
                                ModeView::Normal,
                            );
                        },
                        KeyCode::Esc => {
                            lemma_updated_creature_wf(
                                s,
                                i,
                                s.creatures[i].with_shift(None),
                                ModeView::Normal,
                            );
                        },
                        KeyCode::Backspace => {
                            lemma_backspace(sv.magnitude);
                            let c2 = s.creatures[i].with_shift(
                                Some(
                                    HealthShiftView {
                                        negative: sv.negative,
                                        magnitude: buffer_backspace(sv.magnitude),
                                    },
                                ),
                            );
                            assert(creature_wf(c2));
                            let r = step_health_shift(s, ev);
                            assert forall|j: int| 0 <= j < r.creatures.len() implies creature_wf(
                                #[trigger] r.creatures[j],
                            ) by {
                                if j != i {
                                    assert(r.creatures[j] == s.creatures[j]);
                                    assert(creature_wf(s.creatures[j]));
                                }
                            }
                        },
                        KeyCode::Char(c) => {
                            if is_digit_char(c) {
                                lemma_push_digit(sv.magnitude, char_digit(c));
                                let c2 = s.creatures[i].with_shift(
                                    Some(
                                        HealthShiftView {
                                            negative: sv.negative,
                                            magnitude: buffer_push_digit(
                                                sv.magnitude,
                                                char_digit(c),
                                            ),
                                        },
                                    ),
                                );
                                assert(creature_wf(c2));
                                let r = step_health_shift(s, ev);
                                assert forall|j: int|
                                    0 <= j < r.creatures.len() implies creature_wf(
                                    #[trigger] r.creatures[j],
                                ) by {
                                    if j != i {
                                        assert(r.creatures[j] == s.creatures[j]);
                                        assert(creature_wf(s.creatures[j]));
                                    }
                                }
                            }
                        },
                        _ => {},
                    }
                },
                None => {},
            }
        },
        None => {},
    }
}

proof fn lemma_edit_notes_wf(s: AppView, ev: KeyEvent)
    requires
        app_wf(s),
        s.mode is EditNotes,
    ensures
        app_wf(step_edit_notes(s, ev)),
{
    match s.selected {
        Some(i) => {
            assert(creature_wf(s.creatures[i]));
            if notes_exit(ev) {
                lemma_updated_creature_wf(
                    s,
                    i,
                    s.creatures[i].with_notes(
                        join_lines(s.editor.lines),
                        s.editor.row,
                        s.editor.col,
                    ),
                    ModeView::Normal,
                );
            } else {
                lemma_editor_apply_wf(s.editor, ev);
            }
        },
        None => {},
    }
}

impl App {
    /// The initial state: running, browsing, with an empty roster or the
    /// demonstration roster.
    pub fn new(init_test_creatures: bool) -> (r: App)
        ensures
            r@ == init_spec(init_test_creatures),
            app_wf(r@),
    {
        let mut creatures: Vec<Creature> = Vec::new();
        if init_test_creatures {
            creatures.push(
                Creature {
                    name: String::from_str("Goblin"),
                    health: 5,
                    health_shift: None,
                    initiative: 0,
                    notes: String::from_str("Very gobliny"),
                    notes_cursor_pos: (0, 0),
                },
            );
            creatures.push(
                Creature {
                    name: String::from_str("Chodlin"),
                    health: 4,
                    health_shift: None,
                    initiative: 0,
                    notes: String::from_str("Cousin of Boblin"),
                    notes_cursor_pos: (0, 0),
                },
            );
            creatures.push(
                Creature {
                    name: String::from_str("Boblin"),
                    health: 4,
                    health_shift: None,
                    initiative: 0,
                    notes: String::from_str("The goblin"),
                    notes_cursor_pos: (0, 0),
                },
            );
        }
        let r = App {
            running: true,
            mode: Mode::Normal,
            selected_creature: if init_test_creatures {
                Some(0)
            } else {
                None
            },
            creatures,
            editor: NotesEditor::new_empty(),
        };
        proof {
            assert(r@ =~~= init_spec(init_test_creatures));
            assert forall|j: int| 0 <= j < r@.creatures.len() implies creature_wf(
                #[trigger] r@.creatures[j],
            ) && r@.creatures[j].shift is None by {
                if init_test_creatures {
                    assert(r@.creatures =~~= demo_roster());
                }
            }
            assert(app_wf(r@));
        }
        r
    }

    pub fn running(&self) -> (r: bool)
        ensures
            r == self@.running,
    {
        self.running
    }

    pub fn mode(&self) -> (r: &Mode)
        ensures
            r@ == self@.mode,
    {
        &self.mode
    }

    pub fn selected_creature(&self) -> (r: Option<usize>)
        ensures
            match r {
                Some(i) => self@.selected == Some(i as int),
                None => self@.selected is None,
            },
    {
        self.selected_creature
    }

    pub fn creatures(&self) -> (r: &Vec<Creature>)
        ensures
            roster_view(r@) == self@.creatures,
    {
        &self.creatures
    }

    pub fn editor(&self) -> (r: &NotesEditor)
        ensures
            r@ == self@.editor,
    {
        &self.editor
    }

    /// The hovered creature, if any.
    pub fn hovered_creature(&self) -> (r: Option<&Creature>)
        requires
            app_wf(self@),
        ensures
            self@.selected is Some ==> r is Some && r->0@ == self@.creatures[self@.selected->0],
            self@.selected is None ==> r is None,
    {
        match self.selected_creature {
            Some(i) => Some(&self.creatures[i]),
            None => None,
        }
    }

    /// Hover `index`: the selection moves there and the notes editor is
    /// rebuilt from that creature's stored notes and cursor.
    fn select_creature(&mut self, index: usize)
        requires
            index < old(self)@.creatures.len(),
        ensures
            final(self)@ == select_spec(old(self)@, index as int),
    {
        self.selected_creature = Some(index);
        let c = &self.creatures[index];
        let (row, col) = c.notes_cursor_pos;
        self.editor = NotesEditor::seed(c.notes.as_str(), row, col);
        proof {
            assert(self@ =~~= select_spec(old(self)@, index as int));
        }
    }

    fn on_normal(&mut self, ev: KeyEvent)
        requires
            app_wf(old(self)@),
            old(self)@.mode is Normal,
        ensures
            final(self)@ == step_normal(old(self)@, ev),
    {
        let ghost s0 = self@;
        match ev.code {
            KeyCode::Esc => {
                self.mode = Mode::ConfirmQuit(false);
                proof {
                    assert(self@ =~~= step_normal(s0, ev));
                }
            },
            KeyCode::Char(c) => {
                if c == '?' {
                    self.mode = Mode::Help;
                } else if c == 's' {
                    self.mode = Mode::Sort;
                } else if c == 'K' {
                    if self.creatures.len() > 0 {
                        self.select_creature(0);
                    }
                } else if c == 'k' {
                    let len = self.creatures.len();
                    if len > 0 {
                        let cur: usize = match self.selected_creature {
                            Some(i) => i,
                            None => 0,
                        };
                        let t = if cur == 0 {
                            len - 1
                        } else {
                            cur - 1
                        };
                        self.select_creature(t);
                    }
                } else if c == 'j' {
                    let len = self.creatures.len();
                    if len > 0 {
                        let nxt: usize = match self.selected_creature {
                            Some(i) => (i + 1) % len,
                            None => 0,
                        };
                        self.select_creature(nxt);
                    }
                } else if c == 'J' {
                    let len = self.creatures.len();
                    if len > 0 {
                        self.select_creature(len - 1);
                    }
                } else if c == 'a' {
                    self.creatures.push(Creature::default());
                    let len = self.creatures.len();
                    self.select_creature(len - 1);
                    self.mode = Mode::Rename(String::new());
                } else if c == 'r' {
                    match self.selected_creature {
                        Some(i) => {
                            let name = self.creatures[i].name.clone();
                            self.mode = Mode::Rename(name);
                        },
                        None => {},
                    }
                } else if c == 'n' {
                    match self.selected_creature {
                        Some(_) => {
                            self.mode = Mode::EditNotes;
                        },
                        None => {},
                    }
                } else if c == 'c' {
                    match self.selected_creature {
                        Some(i) => {
                            let len = self.creatures.len();
                            assert(i < len);
                            let dup = self.creatures[i].duplicate();
                            self.creatures.insert(i + 1, dup);
                        },
                        None => {},
                    }
                } else if c == 'd' {
                    match self.selected_creature {
                        Some(i) => {
                            self.creatures.remove(i);
                            let m = self.creatures.len();
                            if m == 0 {
                                self.selected_creature = None;
                                self.editor = NotesEditor::new_empty();
                            } else if i == m {
                                self.select_creature(m - 1);
                            } else {
                                self.select_creature(i);
                            }
                        },
                        None => {},
                    }
                } else if c == 'h' {
                    match self.selected_creature {
                        Some(i) => {
                            self.mode = Mode::SetHealth(self.creatures[i].health);
                        },
                        None => {},
                    }
                } else if c == 'i' {
                    match self.selected_creature {
                        Some(i) => {
                            self.mode = Mode::SetInitiative(self.creatures[i].initiative);
                        },
                        None => {},
                    }
                } else if c == '-' || c == '+' {
                    match self.selected_creature {
                        Some(i) => {
                            let shift = if c == '-' {
                                HealthShift::Decrease(0)
                            } else {
                                HealthShift::Increase(0)
                            };
                            let cr = vec_index_mut(&mut self.creatures, i);
                            cr.health_shift = Some(shift);
                            self.mode = Mode::HealthShift;
                        },
                        None => {},
                    }
                }
                proof {
                    assert(self@ =~~= step_normal(s0, ev));
                }
            },
            _ => {
                proof {
                    assert(self@ =~~= step_normal(s0, ev));
                }
            },
        }
    }

    fn on_confirm_quit(&mut self, q: bool, ev: KeyEvent)
        requires
            old(self)@.mode == ModeView::ConfirmQuit(q),
        ensures
            final(self)@ == step_confirm_quit(old(self)@, q, ev),
    {
        let ghost s0 = self@;
        match ev.code {
            KeyCode::Esc => {
                self.mode = Mode::Normal;
            },
            KeyCode::Enter => {
                if q {
                    self.running = false;
                } else {
                    self.mode = Mode::Normal;
                }
            },
            KeyCode::Char(c) => {
                if c == 'j' || c == 'k' {
                    self.mode = Mode::ConfirmQuit(!q);
                }
            },
            _ => {},
        }
        proof {
            assert(self@ =~~= step_confirm_quit(s0, q, ev));
        }
    }

    fn on_help(&mut self, ev: KeyEvent)
        requires
            old(self)@.mode is Help,
        ensures
            final(self)@ == step_help(old(self)@, ev),
    {
        let ghost s0 = self@;
        match ev.code {
            KeyCode::Esc => {
                self.mode = Mode::Normal;
            },
            _ => {},
        }
        proof {
            assert(self@ =~~= step_help(s0, ev));
        }
    }

    fn on_sort(&mut self, ev: KeyEvent)
        requires
            old(self)@.mode is Sort,
        ensures
            final(self)@ == step_sort(old(self)@, ev),
    {
        let ghost s0 = self@;
        match ev.code {
            KeyCode::Esc => {
                self.mode = Mode::Normal;
            },
            KeyCode::Char(c) => {
                if c == 'i' {
                    sort_creatures(&mut self.creatures, SortField::Initiative, false);
                    self.mode = Mode::Normal;
                } else if c == 'I' {
                    sort_creatures(&mut self.creatures, SortField::Initiative, true);
                    self.mode = Mode::Normal;
                } else if c == 'h' {
                    sort_creatures(&mut self.creatures, SortField::Health, false);
                    self.mode = Mode::Normal;
                } else if c == 'H' {
                    sort_creatures(&mut self.creatures, SortField::Health, true);
                    self.mode = Mode::Normal;
                } else if c == 'n' {
                    sort_creatures(&mut self.creatures, SortField::Name, false);
                    self.mode = Mode::Normal;
                } else if c == 'N' {
                    sort_creatures(&mut self.creatures, SortField::Name, true);
                    self.mode = Mode::Normal;
                }
            },
            _ => {},
        }
        proof {
            assert(self@ =~~= step_sort(s0, ev));
        }
    }

    fn on_rename(&mut self, ev: KeyEvent)
        requires
            app_wf(old(self)@),
            old(self)@.mode is Rename,
        ensures
            final(self)@ == step_rename(old(self)@, ev),
    {
        let ghost s0 = self@;
        let mut m = Mode::Normal;
        core::mem::swap(&mut m, &mut self.mode);
        match m {
            Mode::Rename(mut buf) => {
                match ev.code {
                    KeyCode::Enter => {
                        let i = self.selected_creature.unwrap();
                        let cr = vec_index_mut(&mut self.creatures, i);
                        cr.name = buf;
                    },
                    KeyCode::Esc => {},
                    KeyCode::Backspace => {
                        string_pop(&mut buf);
                        self.mode = Mode::Rename(buf);
                    },
                    KeyCode::Char(ch) => {
                        string_push(&mut buf, ch);
                        self.mode = Mode::Rename(buf);
                    },
                    _ => {
                        self.mode = Mode::Rename(buf);
                    },
                }
            },
            _ => {
                proof {
                    assert(false);
                }
            },
        }
        proof {
            assert(self@ =~~= step_rename(s0, ev));
        }
    }

    fn on_set_health(&mut self, ev: KeyEvent)
        requires
            app_wf(old(self)@),
            old(self)@.mode is SetHealth,
        ensures
            final(self)@ == step_set_health(old(self)@, ev),
    {
        let ghost s0 = self@;
        let buf: i32 = match &self.mode {
            Mode::SetHealth(b) => *b,
            _ => {
                proof {
                    assert(false);
                }
                0
            },
        };
        match numeric_edit(buf, ev) {
            NumericAction::Commit => {
                let i = self.selected_creature.unwrap();
                let cr = vec_index_mut(&mut self.creatures, i);
                cr.health = buf;
                self.mode = Mode::Normal;
            },
            NumericAction::Cancel => {
                self.mode = Mode::Normal;
            },
            NumericAction::Edit(nv) => {
                self.mode = Mode::SetHealth(nv);
            },
            NumericAction::Ignore => {},
        }
        proof {
            assert(self@ =~~= step_set_health(s0, ev));
        }
    }

    fn on_set_initiative(&mut self, ev: KeyEvent)
        requires
            app_wf(old(self)@),
            old(self)@.mode is SetInitiative,
        ensures
            final(self)@ == step_set_initiative(old(self)@, ev),
    {
        let ghost s0 = self@;
        let buf: i32 = match &self.mode {
            Mode::SetInitiative(b) => *b,
            _ => {
                proof {
                    assert(false);
                }
                0
            },
        };
        match numeric_edit(buf, ev) {
            NumericAction::Commit => {
                let i = self.selected_creature.unwrap();
                let cr = vec_index_mut(&mut self.creatures, i);
                cr.initiative = buf;
                self.mode = Mode::Normal;
            },
            NumericAction::Cancel => {
                self.mode = Mode::Normal;
            },
            NumericAction::Edit(nv) => {
                self.mode = Mode::SetInitiative(nv);
            },
            NumericAction::Ignore => {},
        }
        proof {
            assert(self@ =~~= step_set_initiative(s0, ev));
        }
    }

    fn on_health_shift(&mut self, ev: KeyEvent)
        requires
            app_wf(old(self)@),
            old(self)@.mode is HealthShift,
        ensures
            final(self)@ == step_health_shift(old(self)@, ev),
    {
        let ghost s0 = self@;
        let i = self.selected_creature.unwrap();
        let (neg, mag): (bool, u32) = match self.creatures[i].health_shift {
            Some(HealthShift::Increase(m)) => (false, m),
            Some(HealthShift::Decrease(m)) => (true, m),
            None => {
                proof {
                    assert(false);
                }
                (false, 0)
            },
        };
        proof {
            assert(creature_wf(s0.creatures[i as int]));
        }
        match numeric_edit(mag as i32, ev) {
            NumericAction::Commit => {
                let base = self.creatures[i].health;
                let sum: i64 = if neg {
                    base as i64 - mag as i64
                } else {
                    base as i64 + mag as i64
                };
                let newh: i32 = if sum < -2147483648i64 {
                    -2147483648i32
                } else if sum > 2147483647i64 {
                    2147483647i32
                } else {
                    sum as i32
                };
                let cr = vec_index_mut(&mut self.creatures, i);
                cr.health = newh;
                cr.health_shift = None;
                self.mode = Mode::Normal;
            },
            NumericAction::Cancel => {
                let cr = vec_index_mut(&mut self.creatures, i);
                cr.health_shift = None;
                self.mode = Mode::Normal;
            },
            NumericAction::Edit(nv) => {
                proof {
                    // The reshaped magnitude stays a nonnegative machine
                    // value, whichever of the two buffer operations made it.
                    match ev.code {
                        KeyCode::Backspace => lemma_backspace(mag as int),
                        KeyCode::Char(ch) => {
                            if is_digit_char(ch) {
                                lemma_push_digit(mag as int, char_digit(ch));
                            }
                        },
                        _ => {},
                    }
                }
                let cr = vec_index_mut(&mut self.creatures, i);
                cr.health_shift = Some(
                    if neg {
                        HealthShift::Decrease(nv as u32)
                    } else {
                        HealthShift::Increase(nv as u32)
                    },
                );
            },
            NumericAction::Ignore => {},
        }
        proof {
            assert(self@ =~~= step_health_shift(s0, ev));
        }
    }

    fn on_edit_notes(&mut self, ev: KeyEvent)
        requires
            app_wf(old(self)@),
            old(self)@.mode is EditNotes,
        ensures
            final(self)@ == step_edit_notes(old(self)@, ev),
    {
        let ghost s0 = self@;
        let exit = ev.press && (matches!(ev.code, KeyCode::Esc) || (matches!(
            ev.code,
            KeyCode::Enter,
        ) && !ev.alt));
        if exit {
            let notes = self.editor.contents();
            let cur = self.editor.cursor();
            let i = self.selected_creature.unwrap();
            let cr = vec_index_mut(&mut self.creatures, i);
            cr.notes = notes;
            cr.notes_cursor_pos = cur;
            self.mode = Mode::Normal;
        } else {
            self.editor.input(ev);
        }
        proof {
            assert(self@ =~~= step_edit_notes(s0, ev));
        }
    }

    /// Interpret one key event in the current mode. This is the whole state
    /// machine: every transition of the transition table passes through
    /// here, and the state invariant is preserved.
    pub fn handle_key(&mut self, ev: KeyEvent)
        requires
            app_wf(old(self)@),
        ensures
            final(self)@ == step(old(self)@, ev),
            app_wf(final(self)@),
    {
        proof {
            lemma_step_preserves_wf(old(self)@, ev);
        }
        let ghost s0 = self@;
        let is_notes = matches!(self.mode, Mode::EditNotes);
        if !ev.press && !is_notes {
            proof {
                assert(self@ =~~= step(s0, ev));
            }
            return;
        }
        match &self.mode {
            Mode::Normal => {
                self.on_normal(ev);
                proof {
                    assert(self@ == step(s0, ev));
                }
            },
            Mode::ConfirmQuit(q) => {
                let qv = *q;
                self.on_confirm_quit(qv, ev);
                proof {
                    assert(self@ == step(s0, ev));
                }
            },
            Mode::Help => {
                self.on_help(ev);
                proof {
                    assert(self@ == step(s0, ev));
                }
            },
            Mode::Sort => {
                self.on_sort(ev);
                proof {
                    assert(self@ == step(s0, ev));
                }
            },
            Mode::Rename(_) => {
                self.on_rename(ev);
                proof {
                    assert(self@ == step(s0, ev));
                }
            },
            Mode::SetHealth(_) => {
                self.on_set_health(ev);
                proof {
                    assert(self@ == step(s0, ev));
                }
            },
            Mode::SetInitiative(_) => {
                self.on_set_initiative(ev);
                proof {
                    assert(self@ == step(s0, ev));
                }
            },
            Mode::HealthShift => {
                self.on_health_shift(ev);
                proof {
                    assert(self@ == step(s0, ev));
                }
            },
            Mode::EditNotes => {
                self.on_edit_notes(ev);
                proof {
                    assert(self@ == step(s0, ev));
                }
            },
        }
    }
}

/// Every key event keeps the state invariant.
pub proof fn lemma_step_preserves_wf(s: AppView, ev: KeyEvent)
    requires
        app_wf(s),
    ensures
        app_wf(step(s, ev)),
{
    if ev.press || s.mode is EditNotes {
        match s.mode {
            ModeView::Normal => lemma_normal_wf(s, ev),
            ModeView::ConfirmQuit(_) => {},
            ModeView::Help => {},
            ModeView::Sort => lemma_sort_wf(s, ev),
            ModeView::Rename(_) => lemma_rename_wf(s, ev),
            ModeView::SetHealth(_) => lemma_set_health_wf(s, ev),
            ModeView::SetInitiative(_) => lemma_set_initiative_wf(s, ev),
            ModeView::HealthShift => lemma_health_shift_wf(s, ev),
            ModeView::EditNotes => lemma_edit_notes_wf(s, ev),
        }
    }
}

} // verus!
