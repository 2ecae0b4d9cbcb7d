//! The general properties the state machine guarantees, each stated over
//! the transition function and proved once and for all: the selection
//! invariant under arbitrary event sequences, the selection rule after a
//! delete, the revert discipline of the field editors, the idempotence of
//! confirm followed by an untouched cancel, and sort stability at the
//! machine level.

use vstd::prelude::*;

use crate::app::{app_wf, lemma_step_preserves_wf, step, AppView};
use crate::keys::{KeyCode, KeyEvent};
use crate::sort::{lemma_sort_idempotent, SortField};

verus! {

/// The state after a whole sequence of key events.
pub open spec fn run_events(s: AppView, evs: Seq<KeyEvent>) -> AppView
    decreases evs.len(),
{
    if evs.len() == 0 {
        s
    } else {
        run_events(step(s, evs[0]), evs.drop_first())
    }
}

/// Running one more event at the end is one more step.
pub proof fn lemma_run_snoc(s: AppView, evs: Seq<KeyEvent>, e: KeyEvent)
    ensures
        run_events(s, evs.push(e)) == step(run_events(s, evs), e),
    decreases evs.len(),
{
    let p = evs.push(e);
    if evs.len() == 0 {
        assert(p[0] == e);
        assert(p.drop_first() =~= Seq::<KeyEvent>::empty());
        assert(run_events(step(s, e), Seq::<KeyEvent>::empty()) == step(s, e));
        assert(run_events(s, Seq::<KeyEvent>::empty()) == s);
        assert(run_events(s, p) == run_events(step(s, p[0]), p.drop_first()));
    } else {
        assert(p[0] == evs[0]);
        assert(p.drop_first() =~= evs.drop_first().push(e));
        lemma_run_snoc(step(s, evs[0]), evs.drop_first(), e);
    }
}

/// Every sequence of events preserves the state invariant.
pub proof fn lemma_run_preserves_wf(s: AppView, evs: Seq<KeyEvent>)
    requires
        app_wf(s),
    ensures
        app_wf(run_events(s, evs)),
    decreases evs.len(),
{
    if evs.len() > 0 {
        lemma_step_preserves_wf(s, evs[0]);
        lemma_run_preserves_wf(step(s, evs[0]), evs.drop_first());
    }
}

/// After any sequence of events from a well-formed state, the selection is
/// `none` exactly when the roster is empty, and otherwise a valid index.
/// In particular no navigation can select out of range or panic.
pub proof fn lemma_selection_sound(s: AppView, evs: Seq<KeyEvent>)
    requires
        app_wf(s),
    ensures
        run_events(s, evs).selected is None <==> run_events(s, evs).creatures.len() == 0,
        run_events(s, evs).selected is Some ==> 0 <= run_events(s, evs).selected->0 < run_events(
            s,
            evs,
        ).creatures.len(),
{
    lemma_run_preserves_wf(s, evs);
}

/// Deleting the hovered creature at index `i` of a roster of length
/// `n > 1` leaves `n - 1` creatures and selects `min(i, n - 2)`: the row
/// that slid into the hole, or the new last row when the last was deleted.
pub proof fn lemma_delete_selection(s: AppView, i: int)
    requires
        app_wf(s),
        s.mode is Normal,
        s.selected == Some(i),
        s.creatures.len() > 1,
    ensures
        ({
            let r = step(s, KeyEvent { code: KeyCode::Char('d'), alt: false, press: true });
            &&& r.creatures.len() == s.creatures.len() - 1
            &&& r.selected == Some(
                if i < s.creatures.len() - 1 {
                    i
                } else {
                    s.creatures.len() - 2
                },
            )
        }),
{
}

/// An event that neither confirms nor cancels: inside a field edit it can
/// only reshape the buffer.
pub open spec fn stays_editing(ev: KeyEvent) -> bool {
    !(ev.press && (ev.code is Enter || ev.code is Esc))
}

pub open spec fn cancel_key() -> KeyEvent {
    KeyEvent { code: KeyCode::Esc, alt: false, press: true }
}

pub open spec fn confirm_key() -> KeyEvent {
    KeyEvent { code: KeyCode::Enter, alt: false, press: true }
}

proof fn lemma_buffer_edits_frame(s: AppView, evs: Seq<KeyEvent>)
    requires
        app_wf(s),
        s.mode is SetHealth || s.mode is SetInitiative || s.mode is Rename,
        forall|k: int| 0 <= k < evs.len() ==> stays_editing(#[trigger] evs[k]),
    ensures
        ({
            let r = run_events(s, evs);
            &&& app_wf(r)
            &&& r.creatures == s.creatures
            &&& r.selected == s.selected
            &&& r.editor == s.editor
            &&& r.running == s.running
            &&& (s.mode is SetHealth ==> r.mode is SetHealth)
            &&& (s.mode is SetInitiative ==> r.mode is SetInitiative)
            &&& (s.mode is Rename ==> r.mode is Rename)
        }),
    decreases evs.len(),
{
    if evs.len() > 0 {
        let ev = evs[0];
        lemma_step_preserves_wf(s, ev);
        let s1 = step(s, ev);
        assert(stays_editing(ev));
        assert(s1.creatures == s.creatures && s1.selected == s.selected && s1.editor == s.editor
            && s1.running == s.running);
        assert(forall|k: int|
            0 <= k < evs.drop_first().len() ==> stays_editing(#[trigger] evs.drop_first()[k]));
        lemma_buffer_edits_frame(s1, evs.drop_first());
    }
}

/// Cancel restores the pre-edit value exactly. In a rename, a health edit
/// or an initiative edit, the in-progress value lives only in the mode's
/// buffer: whatever editing keystrokes arrive, cancelling returns to
/// `Normal` with every stored creature exactly as it stood when the edit
/// began.
pub proof fn lemma_cancel_restores_fields(s: AppView, evs: Seq<KeyEvent>)
    requires
        app_wf(s),
        s.mode is SetHealth || s.mode is SetInitiative || s.mode is Rename,
        forall|k: int| 0 <= k < evs.len() ==> stays_editing(#[trigger] evs[k]),
    ensures
        ({
            let r = run_events(s, evs.push(cancel_key()));
            &&& r.creatures == s.creatures
            &&& r.selected == s.selected
            &&& r.mode is Normal
        }),
{
    lemma_buffer_edits_frame(s, evs);
    lemma_run_snoc(s, evs, cancel_key());
}

proof fn lemma_shift_edits_frame(s: AppView, evs: Seq<KeyEvent>)
    requires
        app_wf(s),
        s.mode is HealthShift,
        forall|k: int| 0 <= k < evs.len() ==> stays_editing(#[trigger] evs[k]),
    ensures
        ({
            let r = run_events(s, evs);
            let i = s.selected->0;
            &&& app_wf(r)
            &&& r.mode is HealthShift
            &&& r.selected == s.selected
            &&& r.editor == s.editor
            &&& r.running == s.running
            &&& r.creatures.len() == s.creatures.len()
            &&& forall|j: int|
                0 <= j < s.creatures.len() && j != i ==> #[trigger] r.creatures[j]
                    == s.creatures[j]
            &&& r.creatures[i].shift is Some
            &&& r.creatures[i].shift->0.negative == s.creatures[i].shift->0.negative
            &&& r.creatures[i].with_shift(s.creatures[i].shift) == s.creatures[i]
        }),
    decreases evs.len(),
{
    let i0 = s.selected->0;
    assert(s.creatures[i0].with_shift(s.creatures[i0].shift) =~~= s.creatures[i0]);
    if evs.len() > 0 {
        let ev = evs[0];
        lemma_step_preserves_wf(s, ev);
        let s1 = step(s, ev);
        let i = s.selected->0;
        assert(s1.creatures[i].with_shift(s.creatures[i].shift) =~~= s.creatures[i]);
        assert(forall|k: int|
            0 <= k < evs.drop_first().len() ==> stays_editing(#[trigger] evs.drop_first()[k]));
        lemma_shift_edits_frame(s1, evs.drop_first());
        let r = run_events(s, evs);
        assert(r.creatures[i].with_shift(s.creatures[i].shift) =~~= s.creatures[i]);
    }
}

/// Cancel restores the pre-edit value for a health shift too: entering the
/// shift mode from `Normal`, typing any editing keystrokes and cancelling
/// leaves every stored creature exactly as before entry — health untouched
/// and no pending shift left behind.
pub proof fn lemma_cancel_restores_health_shift(s: AppView, c: char, evs: Seq<KeyEvent>)
    requires
        app_wf(s),
        s.mode is Normal,
        s.selected is Some,
        c == '+' || c == '-',
        forall|k: int| 0 <= k < evs.len() ==> stays_editing(#[trigger] evs[k]),
    ensures
        ({
            let entered = step(s, KeyEvent { code: KeyCode::Char(c), alt: false, press: true });
            let r = run_events(entered, evs.push(cancel_key()));
            &&& r.creatures == s.creatures
            &&& r.selected == s.selected
            &&& r.mode is Normal
        }),
{
    let i = s.selected->0;
    let entered = step(s, KeyEvent { code: KeyCode::Char(c), alt: false, press: true });
    lemma_step_preserves_wf(s, KeyEvent { code: KeyCode::Char(c), alt: false, press: true });
    lemma_shift_edits_frame(entered, evs);
    lemma_run_snoc(entered, evs, cancel_key());
    let edited = run_events(entered, evs);
    let r = step(edited, cancel_key());
    assert(r.creatures =~~= s.creatures) by {
        let ec = entered.creatures[i];
        assert(edited.creatures[i].with_shift(ec.shift) =~~= ec);
        assert(r.creatures[i] =~~= s.creatures[i]);
        assert(forall|j: int|
            0 <= j < s.creatures.len() && j != i ==> #[trigger] r.creatures[j] == s.creatures[j]);
    }
}

/// Confirming a health edit, re-entering the health edit and cancelling
/// without touching the buffer is a no-op: the state is exactly the state
/// the confirm produced.
pub proof fn lemma_confirm_reenter_cancel_health(s: AppView)
    requires
        app_wf(s),
        s.mode is SetHealth,
    ensures
        ({
            let committed = step(s, confirm_key());
            let reentered = step(
                committed,
                KeyEvent { code: KeyCode::Char('h'), alt: false, press: true },
            );
            step(reentered, cancel_key()) == committed
        }),
{
    let committed = step(s, confirm_key());
    let reentered = step(committed, KeyEvent { code: KeyCode::Char('h'), alt: false, press: true });
    assert(step(reentered, cancel_key()) =~~= committed);
}

/// The same for an initiative edit.
pub proof fn lemma_confirm_reenter_cancel_initiative(s: AppView)
    requires
        app_wf(s),
        s.mode is SetInitiative,
    ensures
        ({
            let committed = step(s, confirm_key());
            let reentered = step(
                committed,
                KeyEvent { code: KeyCode::Char('i'), alt: false, press: true },
            );
            step(reentered, cancel_key()) == committed
        }),
{
    let committed = step(s, confirm_key());
    let reentered = step(committed, KeyEvent { code: KeyCode::Char('i'), alt: false, press: true });
    assert(step(reentered, cancel_key()) =~~= committed);
}

/// The same for a health shift: confirm applies the shift and clears the
/// slot; re-entering opens a fresh zero shift, and cancelling clears it
/// again without touching health.
pub proof fn lemma_confirm_reenter_cancel_shift(s: AppView, c: char)
    requires
        app_wf(s),
        s.mode is HealthShift,
        c == '+' || c == '-',
    ensures
        ({
            let committed = step(s, confirm_key());
            let reentered = step(
                committed,
                KeyEvent { code: KeyCode::Char(c), alt: false, press: true },
            );
            step(reentered, cancel_key()) == committed
        }),
{
    let i = s.selected->0;
    let committed = step(s, confirm_key());
    let reentered = step(committed, KeyEvent { code: KeyCode::Char(c), alt: false, press: true });
    let r = step(reentered, cancel_key());
    assert(r.creatures =~~= committed.creatures) by {
        assert(r.creatures[i] =~~= committed.creatures[i]);
    }
    assert(r =~~= committed);
}

/// Sorting twice by the same axis and direction yields the identical
/// order: pressing an axis key, reopening the sort menu and pressing the
/// same key again changes nothing.
pub proof fn lemma_sort_twice(s: AppView, c: char)
    requires
        app_wf(s),
        s.mode is Sort,
        c == 'i' || c == 'I' || c == 'h' || c == 'H' || c == 'n' || c == 'N',
    ensures
        ({
            let axis = KeyEvent { code: KeyCode::Char(c), alt: false, press: true };
            let menu = KeyEvent { code: KeyCode::Char('s'), alt: false, press: true };
            let once = step(s, axis);
            let again = step(step(once, menu), axis);
            again.creatures == once.creatures
        }),
{
    if c == 'i' {
        lemma_sort_idempotent(SortField::Initiative, false, s.creatures);
    } else if c == 'I' {
        lemma_sort_idempotent(SortField::Initiative, true, s.creatures);
    } else if c == 'h' {
        lemma_sort_idempotent(SortField::Health, false, s.creatures);
    } else if c == 'H' {
        lemma_sort_idempotent(SortField::Health, true, s.creatures);
    } else if c == 'n' {
        lemma_sort_idempotent(SortField::Name, false, s.creatures);
    } else {
        lemma_sort_idempotent(SortField::Name, true, s.creatures);
    }
}

} // verus!
