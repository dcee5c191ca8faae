use rust_ui_core::modifiers::sheet::{sheet_step, SheetStep};

#[test]
fn sheet_opens_when_binding_turns_true() {
    assert_eq!(sheet_step(false, true), (SheetStep::Present, true));
}

#[test]
fn sheet_closes_when_binding_turns_false() {
    assert_eq!(sheet_step(true, false), (SheetStep::Dismiss, false));
}

#[test]
fn shown_sheet_is_refreshed() {
    assert_eq!(sheet_step(true, true), (SheetStep::UpdateContent, true));
}

#[test]
fn hidden_sheet_stays_hidden() {
    assert_eq!(sheet_step(false, false), (SheetStep::Idle, false));
}

#[test]
fn repeated_render_with_same_binding_is_steady() {
    for presented in [false, true] {
        for show in [false, true] {
            let (_, next) = sheet_step(presented, show);
            assert_eq!(next, show);
            let (again, after) = sheet_step(next, show);
            assert!(again == SheetStep::UpdateContent || again == SheetStep::Idle);
            assert_eq!(after, show);
        }
    }
}
