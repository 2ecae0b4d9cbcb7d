//! One roster entry: a creature's name, health, initiative, free-form
//! notes with a persisted cursor, and an optional pending health shift.

use vstd::prelude::*;

use crate::num::{dec_digits, i32_to_string};
use crate::text::string_push;
use vstd::string::StringExecFns;

verus! {

/// A transient, uncommitted change to a creature's health: a direction and
/// a magnitude, shown beside the stored health while the operator types the
/// amount. It exists only during a health-shift edit.
#[derive(Clone, Copy, Debug, PartialEq)]
pub enum HealthShift {
    Increase(u32),
    Decrease(u32),
}

#[verifier::ext_equal]
pub struct HealthShiftView {
    pub negative: bool,
    pub magnitude: int,
}

impl View for HealthShift {
    type V = HealthShiftView;

    open spec fn view(&self) -> HealthShiftView {
        match *self {
            HealthShift::Increase(m) => HealthShiftView { negative: false, magnitude: m as int },
            HealthShift::Decrease(m) => HealthShiftView { negative: true, magnitude: m as int },
        }
    }
}

/// The text shown for a pending shift: an explicit sign, then the decimal
/// magnitude.
pub open spec fn shift_label(v: HealthShiftView) -> Seq<char> {
    seq![
        if v.negative {
            '-'
        } else {
            '+'
        },
    ] + dec_digits(v.magnitude)
}

impl HealthShift {
    pub open spec fn magnitude(&self) -> int {
        self@.magnitude
    }

    /// The signed text of the shift, such as `+3` or `-12`.
    pub fn label(&self) -> (r: String)
        requires
            self.magnitude() <= 0x7fff_ffff,
        ensures
            r@ == shift_label(self@),
    {
        let (sign, mag): (char, u32) = match *self {
            HealthShift::Increase(m) => ('+', m),
            HealthShift::Decrease(m) => ('-', m),
        };
        let mut s = String::new();
        string_push(&mut s, sign);
        let digits = i32_to_string(mag as i32);
        s.append(digits.as_str());
        proof {
            assert(s@ =~= shift_label(self@));
        }
        s
    }
}

/// One roster entry. The stored fields are authoritative: while a field
/// editor is open, the in-progress value lives in the editor buffer alone
/// and the field keeps its pre-edit value until commit.
#[derive(Debug, PartialEq)]
pub struct Creature {
    pub name: String,
    pub health: i32,
    pub health_shift: Option<HealthShift>,
    pub initiative: i32,
    pub notes: String,
    pub notes_cursor_pos: (usize, usize),
}

#[verifier::ext_equal]
pub struct CreatureView {
    pub name: Seq<char>,
    pub health: int,
    pub shift: Option<HealthShiftView>,
    pub initiative: int,
    pub notes: Seq<char>,
    pub cursor_row: int,
    pub cursor_col: int,
}

impl View for Creature {
    type V = CreatureView;

    open spec fn view(&self) -> CreatureView {
        CreatureView {
            name: self.name@,
            health: self.health as int,
            shift: match self.health_shift {
                Some(hs) => Some(hs@),
                None => None,
            },
            initiative: self.initiative as int,
            notes: self.notes@,
            cursor_row: self.notes_cursor_pos.0 as int,
            cursor_col: self.notes_cursor_pos.1 as int,
        }
    }
}

impl CreatureView {
    /// A freshly added creature: unnamed, at zero, with empty notes.
    pub open spec fn empty() -> CreatureView {
        CreatureView {
            name: Seq::empty(),
            health: 0,
            shift: None,
            initiative: 0,
            notes: Seq::empty(),
            cursor_row: 0,
            cursor_col: 0,
        }
    }

    pub open spec fn with_name(self, name: Seq<char>) -> CreatureView {
        CreatureView {
            name,
            health: self.health,
            shift: self.shift,
            initiative: self.initiative,
            notes: self.notes,
            cursor_row: self.cursor_row,
            cursor_col: self.cursor_col,
        }
    }

    pub open spec fn with_health(self, health: int) -> CreatureView {
        CreatureView {
            name: self.name,
            health,
            shift: self.shift,
            initiative: self.initiative,
            notes: self.notes,
            cursor_row: self.cursor_row,
            cursor_col: self.cursor_col,
        }
    }

    pub open spec fn with_initiative(self, initiative: int) -> CreatureView {
        CreatureView {
            name: self.name,
            health: self.health,
            shift: self.shift,
            initiative,
            notes: self.notes,
            cursor_row: self.cursor_row,
            cursor_col: self.cursor_col,
        }
    }

    pub open spec fn with_shift(self, shift: Option<HealthShiftView>) -> CreatureView {
        CreatureView {
            name: self.name,
            health: self.health,
            shift,
            initiative: self.initiative,
            notes: self.notes,
            cursor_row: self.cursor_row,
            cursor_col: self.cursor_col,
        }
    }

    pub open spec fn with_health_and_shift(
        self,
        health: int,
        shift: Option<HealthShiftView>,
    ) -> CreatureView {
        CreatureView {
            name: self.name,
            health,
            shift,
            initiative: self.initiative,
            notes: self.notes,
            cursor_row: self.cursor_row,
            cursor_col: self.cursor_col,
        }
    }

    pub open spec fn with_notes(self, notes: Seq<char>, row: int, col: int) -> CreatureView {
        CreatureView {
            name: self.name,
            health: self.health,
            shift: self.shift,
            initiative: self.initiative,
            notes,
            cursor_row: row,
            cursor_col: col,
        }
    }
}

impl Default for Creature {
    /// A freshly added creature: unnamed, at zero, with empty notes.
    fn default() -> (r: Creature)
        ensures
            r@ == CreatureView::empty(),
    {
        let r = Creature {
            name: String::new(),
            health: 0,
            health_shift: None,
            initiative: 0,
            notes: String::new(),
            notes_cursor_pos: (0, 0),
        };
        proof {
            assert(r@ =~= CreatureView::empty());
        }
        r
    }
}

impl Creature {
    /// An exact copy, notes and cursor position included.
    pub fn duplicate(&self) -> (r: Creature)
        ensures
            r@ == self@,
    {
        let r = Creature {
            name: self.name.clone(),
            health: self.health,
            health_shift: self.health_shift,
            initiative: self.initiative,
            notes: self.notes.clone(),
            notes_cursor_pos: self.notes_cursor_pos,
        };
        proof {
            assert(r@ =~= self@);
        }
        r
    }
}

} // verus!
