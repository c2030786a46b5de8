use torn::{
    ButtonBackground, ButtonInput, ButtonInteraction, EventPhase, PointerId,
    merge_status, overscan_rows, register_item, Align, Alignment, ColorRole, DarkTheme, DirtyFlags,
    DockAreaError, DockItem, DocumentId, EventStatus, LightTheme, PanelId, Rgba8, Scissor,
    ScrollAxis, SplitAxis, SystemAppearance, SystemTheme, UiRuntimeError, WindowAction,
};

#[test]
fn built_in_palettes_have_distinct_surfaces() {
    assert_ne!(
        DarkTheme.color(ColorRole::Background),
        LightTheme.color(ColorRole::Background)
    );
    assert_eq!(
        DarkTheme.color(ColorRole::Foreground),
        Rgba8 { red: 230, green: 230, blue: 230, alpha: 255 }
    );
}

#[test]
fn system_theme_tracks_the_reported_appearance() {
    let mut theme = SystemTheme::new(SystemAppearance::Light);
    assert_eq!(
        theme.color(ColorRole::Background),
        LightTheme.color(ColorRole::Background)
    );

    theme.set_appearance(SystemAppearance::Dark);
    assert_eq!(theme.appearance(), SystemAppearance::Dark);
    assert_eq!(
        theme.color(ColorRole::Background),
        DarkTheme.color(ColorRole::Background)
    );
}

#[test]
fn defaults_match_the_documented_choices() {
    assert_eq!(EventStatus::default(), EventStatus::Ignored);
    assert_eq!(SystemAppearance::default(), SystemAppearance::Dark);
    assert_eq!(ScrollAxis::default(), ScrollAxis::Vertical);
    assert_eq!(SplitAxis::default(), SplitAxis::Horizontal);
    assert_eq!(Alignment::default(), Alignment::Center);
    assert_eq!(WindowAction::default(), WindowAction::Continue);
    assert_eq!(Align::default(), Align::new(Alignment::Center, Alignment::Center));
    let all = DirtyFlags::all();
    assert!(all.layout && all.paint && all.hit_test);
    assert_eq!(DirtyFlags::default(), DirtyFlags { layout: false, paint: false, hit_test: false });
}

#[test]
fn event_statuses_merge_like_a_logical_or() {
    assert!(EventStatus::Handled.is_handled());
    assert!(!EventStatus::Ignored.is_handled());
    assert_eq!(merge_status(EventStatus::Ignored, EventStatus::Ignored), EventStatus::Ignored);
    assert_eq!(merge_status(EventStatus::Handled, EventStatus::Ignored), EventStatus::Handled);
    assert_eq!(merge_status(EventStatus::Ignored, EventStatus::Handled), EventStatus::Handled);
}

#[test]
fn dock_items_are_bound_once() {
    let mut items = Vec::new();
    assert_eq!(register_item(&mut items, DockItem::Panel(PanelId::new("a".to_string()))), Ok(()));
    assert_eq!(
        register_item(&mut items, DockItem::Document(DocumentId::new("a".to_string()))),
        Ok(())
    );
    assert_eq!(
        register_item(&mut items, DockItem::Panel(PanelId::new("a".to_string()))),
        Err(DockAreaError::DuplicateItem(DockItem::Panel(PanelId::new("a".to_string()))))
    );
    assert_eq!(items.len(), 2);
}

#[test]
fn scissor_intersection_clips_to_both_rectangles() {
    let a = Scissor { x: 10, y: 0, width: 20, height: 50 };
    let b = Scissor::full(25, 30);
    assert_eq!(a.intersect(b), Scissor { x: 10, y: 0, width: 15, height: 30 });
    assert_eq!(b.intersect(a), a.intersect(b));
    let apart = Scissor { x: 100, y: 100, width: 5, height: 5 };
    assert_eq!(a.intersect(apart), Scissor { x: 100, y: 100, width: 0, height: 0 });
    let huge = Scissor { x: u32::MAX - 1, y: 0, width: 10, height: 1 };
    assert_eq!(huge.intersect(huge), Scissor { x: u32::MAX - 1, y: 0, width: 1, height: 1 });
}

#[test]
fn runtime_errors_describe_themselves() {
    assert_eq!(
        UiRuntimeError::InvalidWidgetId.describe(),
        "widget handle is stale or does not belong to this runtime"
    );
}

#[test]
fn scissors_from_edges_saturate_reversed_edges() {
    assert_eq!(
        Scissor::from_edges(2, 3, 10, 4),
        Scissor { x: 2, y: 3, width: 8, height: 1 }
    );
    assert_eq!(
        Scissor::from_edges(9, 9, 4, 9),
        Scissor { x: 9, y: 9, width: 0, height: 0 }
    );
}

#[test]
fn activates_only_when_the_pressing_pointer_is_released_inside() {
    let mut button = ButtonInteraction::new();
    let down = button.handle(EventPhase::Target, ButtonInput::PrimaryDown(PointerId(1)));
    assert_eq!(down.capture, Some(PointerId(1)));
    assert!(down.request_focus);
    assert_eq!(button.background(), ButtonBackground::Pressed);

    let other = button.handle(EventPhase::Target, ButtonInput::PrimaryUp(PointerId(2), true));
    assert_eq!(other.status, EventStatus::Ignored);
    assert!(button.pressed);

    let outside = button.handle(EventPhase::Bubble, ButtonInput::PrimaryUp(PointerId(1), false));
    assert!(!outside.activate);
    assert_eq!(outside.release, Some(PointerId(1)));
    assert_eq!(button.background(), ButtonBackground::Normal);

    let _ = button.handle(EventPhase::Target, ButtonInput::PrimaryDown(PointerId(1)));
    let inside = button.handle(EventPhase::Target, ButtonInput::PrimaryUp(PointerId(1), true));
    assert!(inside.activate);

    let captured = button.handle(EventPhase::Capture, ButtonInput::ActivationKey);
    assert!(!captured.activate);
    assert!(button.handle(EventPhase::Target, ButtonInput::ActivationKey).activate);
    let _ = button.handle(EventPhase::Target, ButtonInput::PointerEnter);
    assert_eq!(button.background(), ButtonBackground::Hovered);
}

#[test]
fn lists_keep_one_row_of_overscan_on_each_side() {
    assert_eq!(overscan_rows(0, 3, 10), (0, 4));
    assert_eq!(overscan_rows(5, 8, 100), (4, 9));
    assert_eq!(overscan_rows(5, 8, 7), (4, 7));
    assert_eq!(overscan_rows(2, 2, 0), (1, 0));
    assert_eq!(overscan_rows(0, usize::MAX, usize::MAX), (0, usize::MAX));
}
