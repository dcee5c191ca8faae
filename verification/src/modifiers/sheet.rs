//! The `.sheet()` modifier: a modal sheet shown while a boolean binding is
//! true. Each time the host view renders, the presenter compares the binding
//! with whether a sheet is on screen (which it keeps in the persistent
//! storage under the modifier's identity) and decides what to do; the
//! platform backend then does it.
use vstd::prelude::*;

verus! {

/// What the sheet presenter does when its host view renders.
#[derive(Clone, Copy, Debug, PartialEq, Eq, Structural)]
pub enum SheetStep {
    /// A sheet is shown and should stay: render its content again.
    UpdateContent,
    /// A sheet is shown but the binding is false: close it.
    Dismiss,
    /// No sheet is shown but the binding is true: open one.
    Present,
    /// No sheet is shown and none is wanted.
    Idle,
}

/// The step for a presenter with a sheet on screen or not (`presented`)
/// whose binding reads `show_sheet`.
pub open spec fn spec_sheet_step(presented: bool, show_sheet: bool) -> SheetStep {
    if presented {
        if show_sheet {
            SheetStep::UpdateContent
        } else {
            SheetStep::Dismiss
        }
    } else if show_sheet {
        SheetStep::Present
    } else {
        SheetStep::Idle
    }
}

/// Whether a sheet is on screen after `step`.
pub open spec fn presented_after(step: SheetStep) -> bool {
    step == SheetStep::UpdateContent || step == SheetStep::Present
}

/// Decide what the presenter does, and whether a sheet is on screen
/// afterwards (what it records in the persistent storage).
pub fn sheet_step(presented: bool, show_sheet: bool) -> (r: (SheetStep, bool))
    ensures
        r.0 == spec_sheet_step(presented, show_sheet),
        r.1 == presented_after(r.0),
{
    if presented {
        if show_sheet {
            (SheetStep::UpdateContent, true)
        } else {
            (SheetStep::Dismiss, false)
        }
    } else if show_sheet {
        (SheetStep::Present, true)
    } else {
        (SheetStep::Idle, false)
    }
}

/// The sheet follows its binding: after any step a sheet is on screen
/// exactly when the binding is true; a sheet is opened only when none is
/// shown and closed only when one is.
pub proof fn lemma_sheet_follows_binding(presented: bool, show_sheet: bool)
    ensures
        presented_after(spec_sheet_step(presented, show_sheet)) == show_sheet,
        spec_sheet_step(presented, show_sheet) == SheetStep::Present ==> !presented,
        spec_sheet_step(presented, show_sheet) == SheetStep::Dismiss ==> presented,
{
}

/// Rendering again with an unchanged binding opens or closes nothing: the
/// second step only updates the content or stays idle.
pub proof fn lemma_sheet_steady(presented: bool, show_sheet: bool)
    ensures
        ({
            let next = presented_after(spec_sheet_step(presented, show_sheet));
            let again = spec_sheet_step(next, show_sheet);
            again == SheetStep::UpdateContent || again == SheetStep::Idle
        }),
{
}

/// The presenter opens a sheet exactly when none is shown and the binding
/// is true, closes one exactly when one is shown and the binding is false,
/// refreshes it exactly when one is shown and wanted, and does nothing
/// otherwise.
pub proof fn lemma_sheet_step_cases(presented: bool, show_sheet: bool)
    ensures
        (spec_sheet_step(presented, show_sheet) == SheetStep::Present) == (!presented && show_sheet),
        (spec_sheet_step(presented, show_sheet) == SheetStep::Dismiss) == (presented && !show_sheet),
        (spec_sheet_step(presented, show_sheet) == SheetStep::UpdateContent) == (presented
            && show_sheet),
        (spec_sheet_step(presented, show_sheet) == SheetStep::Idle) == (!presented && !show_sheet),
{
}

} // verus!
