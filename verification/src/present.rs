//! The presentation projection: pure render data derived from the state.
//! What is drawn, and where, belongs to the caller; this module only fixes
//! what each frame must show — the per-row texts, the hovered flag, and
//! the instruction banner of each mode.

use vstd::prelude::*;

use crate::app::{app_wf, App, Mode, ModeView};
use crate::creature::{shift_label, Creature, CreatureView};
use crate::num::{dec_str, i32_to_string};
use vstd::string::StringExecFns;

verus! {

/// A name renders as a placeholder when empty; it is never stored as null.
pub open spec fn name_label(name: Seq<char>) -> Seq<char> {
    if name.len() == 0 {
        "<empty>"@
    } else {
        name
    }
}

/// The health column: the stored health, annotated with the pending shift
/// while one is being typed, such as `12 +3`.
pub open spec fn health_label(c: CreatureView) -> Seq<char> {
    match c.shift {
        None => dec_str(c.health),
        Some(sv) => dec_str(c.health) + " "@ + shift_label(sv),
    }
}

impl Creature {
    /// The three column texts of this row, and whether it is the hovered
    /// row.
    pub fn render(&self, index: usize, selected_index: Option<usize>) -> (r: (
        String,
        String,
        String,
        bool,
    ))
        requires
            match self@.shift {
                Some(sv) => sv.magnitude <= 0x7fff_ffff,
                None => true,
            },
        ensures
            r.0@ == dec_str(self@.initiative),
            r.1@ == name_label(self@.name),
            r.2@ == health_label(self@),
            r.3 == match selected_index {
                Some(s) => s == index,
                None => false,
            },
    {
        let initiative_text = i32_to_string(self.initiative);
        let name_text = if self.name.as_str().unicode_len() == 0 {
            String::from_str("<empty>")
        } else {
            self.name.clone()
        };
        let health_text = match &self.health_shift {
            None => i32_to_string(self.health),
            Some(hs) => {
                let mut t = i32_to_string(self.health);
                t.append(" ");
                let lab = hs.label();
                t.append(lab.as_str());
                proof {
                    assert(t@ =~= health_label(self@));
                }
                t
            },
        };
        let selected = match selected_index {
            Some(s) => s == index,
            None => false,
        };
        (initiative_text, name_text, health_text, selected)
    }
}

/// What the row for creature `i` must show, given the whole state: while
/// the hovered creature's name, health or initiative is being edited, the
/// in-progress buffer is shown in place of the stored field.
pub open spec fn row_spec(s: crate::app::AppView, i: int) -> (Seq<char>, Seq<char>, Seq<char>, bool) {
    let c = s.creatures[i];
    let hovered = s.selected == Some(i);
    let init_text = match s.mode {
        ModeView::SetInitiative(b) => if hovered {
            dec_str(b)
        } else {
            dec_str(c.initiative)
        },
        _ => dec_str(c.initiative),
    };
    let name_text = match s.mode {
        ModeView::Rename(buf) => if hovered {
            name_label(buf)
        } else {
            name_label(c.name)
        },
        _ => name_label(c.name),
    };
    let health_text = match s.mode {
        ModeView::SetHealth(b) => if hovered {
            dec_str(b)
        } else {
            health_label(c)
        },
        _ => health_label(c),
    };
    (init_text, name_text, health_text, hovered)
}

impl App {
    /// The display row for creature `index`.
    pub fn row(&self, index: usize) -> (r: (String, String, String, bool))
        requires
            app_wf(self@),
            index < self@.creatures.len(),
        ensures
            ({
                let spec = row_spec(self@, index as int);
                r.0@ == spec.0 && r.1@ == spec.1 && r.2@ == spec.2 && r.3 == spec.3
            }),
    {
        proof {
            assert(crate::app::creature_wf(self@.creatures[index as int]));
        }
        let base = {
            let c = &self.creatures()[index];
            c.render(index, self.selected_creature())
        };
        let (init_text, name_text, health_text, hovered) = base;
        match self.mode() {
            Mode::Rename(buf) => {
                if hovered {
                    let shown = if buf.as_str().unicode_len() == 0 {
                        String::from_str("<empty>")
                    } else {
                        buf.clone()
                    };
                    (init_text, shown, health_text, hovered)
                } else {
                    (init_text, name_text, health_text, hovered)
                }
            },
            Mode::SetHealth(b) => {
                if hovered {
                    (init_text, name_text, i32_to_string(*b), hovered)
                } else {
                    (init_text, name_text, health_text, hovered)
                }
            },
            Mode::SetInitiative(b) => {
                if hovered {
                    (i32_to_string(*b), name_text, health_text, hovered)
                } else {
                    (init_text, name_text, health_text, hovered)
                }
            },
            _ => (init_text, name_text, health_text, hovered),
        }
    }
}

/// The instruction banner of one mode: segments of text, each plain or
/// accented.
pub open spec fn instructions_spec(m: ModeView) -> Seq<(Seq<char>, bool)> {
    match m {
        ModeView::ConfirmQuit(_) => seq![
            (" Back to normal mode: "@, false),
            ("Esc"@, true),
            (" Navigate: "@, false),
            ("j/k"@, true),
            (" Select: "@, false),
            ("Enter "@, true),
        ],
        ModeView::Normal => seq![
            (" Exit: "@, false),
            ("Esc"@, true),
            (" Help: "@, false),
            ("? "@, true),
        ],
        ModeView::Sort => seq![
            (" Press letter to determine order, shift reverses: ("@, false),
            ("I"@, true),
            (")nitiative, ("@, false),
            ("H"@, true),
            (")ealth, ("@, false),
            ("N"@, true),
            (")ame or "@, false),
            ("Esc"@, true),
            ("to cancel"@, false),
        ],
        ModeView::EditNotes => seq![
            (" Confirm: "@, false),
            ("Enter"@, true),
            (" (use alt to break lines), Cancel: "@, false),
            ("Esc "@, true),
        ],
        ModeView::Help => Seq::empty(),
        _ => seq![
            (" Confirm: "@, false),
            ("Enter"@, true),
            (", Cancel: "@, false),
            ("Esc "@, true),
        ],
    }
}

/// The views of rendered banner segments.
pub open spec fn segments_view(segs: Seq<(String, bool)>) -> Seq<(Seq<char>, bool)> {
    segs.map_values(|p: (String, bool)| (p.0@, p.1))
}

fn seg(v: &mut Vec<(String, bool)>, text: &str, accent: bool)
    ensures
        segments_view(final(v)@) == segments_view(old(v)@).push((text@, accent)),
{
    v.push((String::from_str(text), accent));
    proof {
        assert(segments_view(v@) =~~= segments_view(old(v)@).push((text@, accent)));
    }
}

impl Mode {
    /// The instruction banner shown at the bottom for this mode. The help
    /// screen draws no banner and must not ask for one.
    pub fn get_instructions(&self) -> (r: Vec<(String, bool)>)
        requires
            !(self@ is Help),
        ensures
            segments_view(r@) == instructions_spec(self@),
    {
        let mut v: Vec<(String, bool)> = Vec::new();
        match self {
            Mode::Help => {
                proof {
                    assert(false);
                }
            },
            Mode::ConfirmQuit(_) => {
                seg(&mut v, " Back to normal mode: ", false);
                seg(&mut v, "Esc", true);
                seg(&mut v, " Navigate: ", false);
                seg(&mut v, "j/k", true);
                seg(&mut v, " Select: ", false);
                seg(&mut v, "Enter ", true);
            },
            Mode::Normal => {
                seg(&mut v, " Exit: ", false);
                seg(&mut v, "Esc", true);
                seg(&mut v, " Help: ", false);
                seg(&mut v, "? ", true);
            },
            Mode::Sort => {
                seg(&mut v, " Press letter to determine order, shift reverses: (", false);
                seg(&mut v, "I", true);
                seg(&mut v, ")nitiative, (", false);
                seg(&mut v, "H", true);
                seg(&mut v, ")ealth, (", false);
                seg(&mut v, "N", true);
                seg(&mut v, ")ame or ", false);
                seg(&mut v, "Esc", true);
                seg(&mut v, "to cancel", false);
            },
            Mode::EditNotes => {
                seg(&mut v, " Confirm: ", false);
                seg(&mut v, "Enter", true);
                seg(&mut v, " (use alt to break lines), Cancel: ", false);
                seg(&mut v, "Esc ", true);
            },
            _ => {
                seg(&mut v, " Confirm: ", false);
                seg(&mut v, "Enter", true);
                seg(&mut v, ", Cancel: ", false);
                seg(&mut v, "Esc ", true);
            },
        }
        proof {
            assert(segments_view(v@) =~~= instructions_spec(self@));
        }
        v
    }
}

/// The two options of the quit confirmation, in display order.
pub fn quit_menu_labels() -> (r: (String, String))
    ensures
        r.0@ == "Return to normal mode"@,
        r.1@ == "Quit"@,
{
    (String::from_str("Return to normal mode"), String::from_str("Quit"))
}

} // verus!
