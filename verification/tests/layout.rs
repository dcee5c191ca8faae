use rust_ui_core::icon::Icon;
use rust_ui_core::layout::{Position, Size};

#[test]
fn splat_sets_both_dimensions() {
    let s = Size::splat(3.5f64);
    assert_eq!(s, Size { width: 3.5, height: 3.5 });
    let n: Size<Option<f64>> = Size::splat(None);
    assert_eq!(n.width, None);
    assert_eq!(n.height, None);
}

#[test]
fn position_default_is_origin() {
    let p: Position<f64> = Position::default();
    assert_eq!(p, Position { x: 0.0, y: 0.0 });
}

#[test]
fn icon_holds_system_name() {
    let Icon::System(name) = Icon::System("star.fill").clone();
    assert_eq!(name, "star.fill");
}
