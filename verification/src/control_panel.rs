//! The control UI's decision state: the root window's grid selection, its
//! display mode, and the handle of the optional child display window. On
//! every frame the shell asks this state to reconcile the mode against the
//! remembered child handle; the reconciliation is level-triggered, so it is
//! re-derived from current state each pass and self-heals if an event was
//! ever missed.

use vstd::prelude::*;

verus! {

/// How the picture is shown: inside the control window, or expanded into
/// an independent child window.
#[derive(Clone, Copy, PartialEq, Eq, Structural, Debug)]
pub enum Mode {
    Compact,
    Full,
}

/// What a reconciliation pass asks the coordinator to do: open a fresh
/// child display window, or close the remembered one.
#[derive(Clone, Copy, PartialEq, Eq, Structural, Debug)]
pub enum ChildAction {
    Open,
    Close(u64),
}

/// The control window's own state. The rendering resources (textures,
/// channels) live with the shell; this is everything its decisions read.
#[derive(Clone, Copy, PartialEq, Eq, Structural, Debug)]
pub struct ControlPanel {
    pub child_window_id: Option<u64>,
    pub mode: Mode,
    pub rows: u8,
    pub columns: u8,
}

/// One reconciliation pass as a function: the successor state and the
/// action issued, if any. Compact with a remembered child closes it (and
/// forgets it at once); Full without a child asks for one to be opened;
/// every other combination is already reconciled.
pub open spec fn spec_reconcile(cp: ControlPanel) -> (ControlPanel, Option<ChildAction>) {
    match cp.child_window_id {
        Some(id) => if cp.mode is Compact {
            (ControlPanel { child_window_id: None, ..cp }, Some(ChildAction::Close(id)))
        } else {
            (cp, None)
        },
        None => if cp.mode is Full {
            (cp, Some(ChildAction::Open))
        } else {
            (cp, None)
        },
    }
}

/// Recording a freshly opened child window.
pub open spec fn spec_record_child(cp: ControlPanel, id: u64) -> ControlPanel {
    ControlPanel { child_window_id: Some(id), ..cp }
}

impl ControlPanel {
    /// The initial control state: compact, a 4 x 4 grid, no child window.
    pub fn new() -> (r: Self)
        ensures
            r == (ControlPanel {
                child_window_id: None,
                mode: Mode::Compact,
                rows: 4u8,
                columns: 4u8,
            }),
    {
        ControlPanel { child_window_id: None, mode: Mode::Compact, rows: 4, columns: 4 }
    }

    /// The coordinator saw the child window close: forget its handle and
    /// fall back to compact mode.
    pub fn notify_child_ui_has_closed(&mut self, _window_id: u64)
        ensures
            *final(self) == (ControlPanel {
                child_window_id: None,
                mode: Mode::Compact,
                ..*old(self)
            }),
    {
        self.child_window_id = None;
        self.mode = Mode::Compact;
    }

    /// Adopt a new grid selection; reports whether it differed from the
    /// current one, in which case the shell sends the worker a reset.
    pub fn set_grid(&mut self, rows: u8, columns: u8) -> (changed: bool)
        ensures
            changed == (rows != old(self).rows || columns != old(self).columns),
            *final(self) == (ControlPanel { rows, columns, ..*old(self) }),
    {
        let changed = rows != self.rows || columns != self.columns;
        self.rows = rows;
        self.columns = columns;
        changed
    }

    /// One level-triggered reconciliation pass over mode and child handle.
    pub fn reconcile(&mut self) -> (r: Option<ChildAction>)
        ensures
            (*final(self), r) == spec_reconcile(*old(self)),
    {
        match self.child_window_id {
            Some(id) => {
                if self.mode == Mode::Compact {
                    self.child_window_id = None;
                    Some(ChildAction::Close(id))
                } else {
                    None
                }
            },
            None => {
                if self.mode == Mode::Full {
                    Some(ChildAction::Open)
                } else {
                    None
                }
            },
        }
    }

    /// A child window was just created for this panel: remember its handle.
    pub fn record_child_opened(&mut self, id: u64)
        ensures
            *final(self) == spec_record_child(*old(self), id),
    {
        self.child_window_id = Some(id);
    }

    /// Flip the display mode, as the shell's mode radio buttons do.
    pub fn set_mode(&mut self, mode: Mode)
        ensures
            *final(self) == (ControlPanel { mode, ..*old(self) }),
    {
        self.mode = mode;
    }
}

/// Law: child lifecycle idempotence. A reconciliation pass issues at most
/// one action, and once that action's effect is in place — a close clears
/// the handle by itself, an open is followed by recording the new child —
/// an immediately repeated pass issues nothing. Hence toggling
/// Compact -> Full -> Compact yields exactly one open and one close per
/// toggle, never a duplicate.
pub proof fn lemma_reconcile_idempotent(cp: ControlPanel, id: u64)
    ensures
        spec_reconcile(cp).1 is None ==> spec_reconcile(spec_reconcile(cp).0).1 is None,
        spec_reconcile(cp).1 matches Some(ChildAction::Close(_))
            ==> spec_reconcile(spec_reconcile(cp).0).1 is None,
        spec_reconcile(cp).1 == Some(ChildAction::Open)
            ==> spec_reconcile(spec_record_child(spec_reconcile(cp).0, id)).1 is None,
{
}

} // verus!
