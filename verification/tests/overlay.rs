use debree::overlay::{
    overlay_keys, span_plan, AlignItems, AlignSelf, DebugOverlayPlugin, FlexDirection,
    JustifyContent, OverlayAnchor, SpanPlan,
};

#[test]
fn plugin_settings() {
    let d = DebugOverlayPlugin::default();
    assert!(!d.enabled && !d.supress_default);
    let e = DebugOverlayPlugin::enabled();
    assert!(e.enabled && !e.supress_default);
    let s = e.supress_default();
    assert!(s.enabled && s.supress_default);
    let h = DebugOverlayPlugin::default().supress_default();
    assert!(!h.enabled && h.supress_default);
}

#[test]
fn anchor_sides() {
    assert!(OverlayAnchor::BottomCenter.is_bottom());
    assert!(!OverlayAnchor::TopCenter.is_bottom());
    assert!(OverlayAnchor::TopRight.is_right() && OverlayAnchor::TopRight.is_top());
    assert!(OverlayAnchor::LeftCenter.is_left() && OverlayAnchor::LeftCenter.is_center_vertical());
    assert!(OverlayAnchor::Center.is_center_horizontal() && OverlayAnchor::Center.is_center_vertical());
    let d = OverlayAnchor::Dynamic(42);
    assert!(!d.is_bottom() && !d.is_top() && !d.is_left() && !d.is_right());
    assert!(!OverlayAnchor::Fill.is_center_horizontal());
}

#[test]
fn anchor_layout() {
    let b = OverlayAnchor::BottomRight;
    assert_eq!(b.justify_content(), JustifyContent::End);
    assert_eq!(b.flex_direction(), FlexDirection::ColumnReverse);
    assert_eq!(b.align_items(), AlignItems::End);
    assert_eq!(b.align_self(), AlignSelf::End);
    let c = OverlayAnchor::LeftCenter;
    assert_eq!(c.justify_content(), JustifyContent::Center);
    assert_eq!(c.flex_direction(), FlexDirection::Column);
    assert_eq!(c.align_items(), AlignItems::Start);
    assert_eq!(c.align_self(), AlignSelf::Center);
    let t = OverlayAnchor::TopCenter;
    assert_eq!(t.justify_content(), JustifyContent::Start);
    assert_eq!(t.align_items(), AlignItems::Center);
    assert_eq!(t.align_self(), AlignSelf::Start);
}

#[test]
fn span_plans() {
    assert_eq!(span_plan(5, 2), SpanPlan { kept: 2, despawned: 3, spawned: 0 });
    assert_eq!(span_plan(1, 4), SpanPlan { kept: 1, despawned: 0, spawned: 3 });
    assert_eq!(span_plan(3, 3), SpanPlan { kept: 3, despawned: 0, spawned: 0 });
}

#[test]
fn overlay_key_handling() {
    assert_eq!(overlay_keys(false, true, false, false, false, false), (true, None));
    assert_eq!(overlay_keys(true, false, true, true, true, false), (true, Some(1)));
    assert_eq!(overlay_keys(true, true, true, true, false, true), (false, Some(-1)));
    assert_eq!(overlay_keys(false, false, true, false, true, false), (false, None));
    assert_eq!(overlay_keys(false, false, true, true, true, true), (false, Some(0)));
}
