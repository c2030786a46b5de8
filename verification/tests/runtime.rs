use torn::{
    children_in_order, delivery_order, tab_focus_target, Diagnostic, EventPhase, FocusRequest,
    Key, KeyCode, KeyEvent, Modifiers, NamedKey, PointerId, PointerTargets, UiRuntime,
    UiRuntimeError, WidgetId, MAX_RETAINED_DIAGNOSTICS,
};

fn tab(modifiers: Modifiers) -> KeyEvent {
    KeyEvent {
        key: Key::Named(NamedKey::Tab),
        code: KeyCode::Unidentified,
        repeat: false,
        modifiers,
    }
}

#[test]
fn adding_a_sibling_preserves_existing_widget_ids() {
    let mut runtime = UiRuntime::new("row");
    let root = runtime.root();
    let first = runtime.append_child(root, "first").expect("valid parent");
    let second = runtime.append_child(root, "second").expect("valid parent");

    assert_eq!(runtime.parent(first), Some(root));
    assert_eq!(runtime.children(root), Some([first, second].as_slice()));
    assert_ne!(first, second);
}

#[test]
fn removing_a_node_invalidates_its_generation() {
    let mut runtime = UiRuntime::new("row");
    let root = runtime.root();
    let first = runtime.append_child(root, "first").expect("valid parent");
    runtime.remove_subtree(first).expect("remove child");
    let second = runtime.append_child(root, "second").expect("valid parent");

    assert_eq!(first.index(), second.index());
    assert_ne!(first.generation(), second.generation());
    assert_ne!(first, second);
    assert!(runtime.widget(first).is_none());
    assert_eq!(
        runtime.remove_subtree(first),
        Err(UiRuntimeError::InvalidWidgetId)
    );
}

#[test]
fn removing_a_subtree_clears_focus_and_pointer_capture() {
    let mut runtime = UiRuntime::new("root");
    let branch = runtime
        .append_child(runtime.root(), "branch")
        .expect("add branch");
    let target = runtime.append_child(branch, "target").expect("add target");
    runtime
        .apply_child_layout(runtime.root(), &[(branch, true)], false)
        .expect("root layout");
    runtime
        .apply_child_layout(branch, &[(target, true)], false)
        .expect("branch layout");
    runtime
        .apply_child_layout(target, &[], true)
        .expect("target layout");

    let mut effects = runtime.begin_effects();
    effects.pointer_capture.insert(PointerId(1), target);
    effects.focus_request = Some(FocusRequest::Focus(target));
    let requested = runtime.finish_event(None, effects);
    assert_eq!(requested, Some(Some(target)));
    let notified = runtime.change_focus(Some(target));
    assert_eq!(notified, vec![target]);
    assert_eq!(runtime.focused_widget(), Some(target));
    assert_eq!(runtime.pointer_capture(PointerId(1)), Some(target));

    runtime
        .remove_subtree(branch)
        .expect("remove focused branch");

    assert_eq!(runtime.focused_widget(), None);
    assert_eq!(runtime.pointer_capture(PointerId(1)), None);
}

#[test]
fn tab_and_shift_tab_cycle_focusable_widgets_in_tree_order() {
    let mut runtime = UiRuntime::new("row");
    let root = runtime.root();
    let first = runtime
        .append_child(root, "first")
        .expect("add first focusable widget");
    let second = runtime
        .append_child(root, "second")
        .expect("add second focusable widget");
    runtime
        .apply_child_layout(root, &[(first, true), (second, true)], false)
        .expect("layout succeeds");
    runtime.apply_child_layout(first, &[], true).expect("layout succeeds");
    runtime.apply_child_layout(second, &[], true).expect("layout succeeds");

    let next = runtime.tab_navigation_target(&tab(Modifiers::none()));
    let _ = runtime.change_focus(Some(next.expect("tab moves focus")));
    assert_eq!(runtime.focused_widget(), Some(first));
    let next = runtime.tab_navigation_target(&tab(Modifiers::none()));
    let _ = runtime.change_focus(Some(next.expect("tab moves focus")));
    assert_eq!(runtime.focused_widget(), Some(second));
    let next = runtime.tab_navigation_target(&tab(Modifiers::shift()));
    let _ = runtime.change_focus(Some(next.expect("shift-tab moves focus")));
    assert_eq!(runtime.focused_widget(), Some(first));
}

#[test]
fn retains_a_bounded_history_of_repeated_widget_panics() {
    let mut runtime = UiRuntime::new("panicking");
    for _ in 0..=MAX_RETAINED_DIAGNOSTICS {
        runtime.record_diagnostic(Diagnostic::error(
            String::from("torn-ui"),
            String::from("application widget panicked during layout: boom"),
        ));
    }

    assert_eq!(runtime.diagnostics().len(), MAX_RETAINED_DIAGNOSTICS);
    assert_eq!(runtime.take_diagnostics().len(), MAX_RETAINED_DIAGNOSTICS);
    assert!(runtime.diagnostics().is_empty());
}

#[test]
fn removing_the_root_or_a_stale_handle_is_refused() {
    let mut runtime = UiRuntime::new("root");
    let root = runtime.root();
    assert_eq!(
        runtime.remove_subtree(root),
        Err(UiRuntimeError::InvalidWidgetId)
    );
    assert_eq!(
        runtime.append_child(WidgetId::new(7, 0), "orphan"),
        Err(UiRuntimeError::InvalidWidgetId)
    );
    assert_eq!(runtime.children(root), Some([].as_slice()));
}

#[test]
fn removing_a_subtree_frees_children_before_their_parent() {
    let mut runtime = UiRuntime::new("root");
    let root = runtime.root();
    let branch = runtime.append_child(root, "branch").expect("branch");
    let leaf = runtime.append_child(branch, "leaf").expect("leaf");
    let keep = runtime.append_child(root, "keep").expect("keep");
    runtime.remove_subtree(branch).expect("remove branch");

    assert_eq!(runtime.children(root), Some([keep].as_slice()));
    assert!(runtime.parent(leaf).is_none());
    // The branch was vacated last, so its slot is reused first.
    let again = runtime.append_child(root, "again").expect("again");
    assert_eq!(again.index(), branch.index());
    assert_eq!(again.generation(), branch.generation() + 1);
    let other = runtime.append_child(root, "other").expect("other");
    assert_eq!(other.index(), leaf.index());
}

#[test]
fn routes_run_from_the_root_to_the_target() {
    let mut runtime = UiRuntime::new("root");
    let root = runtime.root();
    let parent = runtime.append_child(root, "parent").expect("parent");
    let target = runtime.append_child(parent, "target").expect("target");
    assert_eq!(runtime.route_to(target), vec![root, parent, target]);
    let stale = WidgetId::new(9, 0);
    assert_eq!(runtime.route_to(stale), vec![stale]);

    assert_eq!(
        delivery_order(&[root, parent, target], target),
        vec![
            (root, EventPhase::Capture),
            (parent, EventPhase::Capture),
            (target, EventPhase::Target),
            (parent, EventPhase::Bubble),
            (root, EventPhase::Bubble),
        ]
    );
    assert_eq!(
        delivery_order(&[], target),
        vec![(target, EventPhase::Target)]
    );
}

#[test]
fn visibility_requires_every_ancestor_to_be_shown() {
    let mut runtime = UiRuntime::new("root");
    let root = runtime.root();
    let parent = runtime.append_child(root, "parent").expect("parent");
    let child = runtime.append_child(parent, "child").expect("child");
    assert!(runtime.is_visible(child));
    runtime
        .apply_child_layout(root, &[(parent, false)], false)
        .expect("layout");
    assert!(!runtime.is_visible(child));
    assert!(runtime.is_visible(root));
    assert_eq!(runtime.node_flags(parent), Some((false, false)));
}

#[test]
fn layouts_must_position_children_in_tree_order() {
    let mut runtime = UiRuntime::new("root");
    let root = runtime.root();
    let a = runtime.append_child(root, "a").expect("a");
    let b = runtime.append_child(root, "b").expect("b");
    assert_eq!(
        runtime.apply_child_layout(root, &[(b, true), (a, true)], false),
        Err(UiRuntimeError::InvalidLayout)
    );
    assert_eq!(
        runtime.apply_child_layout(root, &[(a, true), (a, true)], false),
        Err(UiRuntimeError::InvalidLayout)
    );
    assert!(children_in_order(&[(b, true)], &[a, b]));
    assert!(!children_in_order(&[(root, true)], &[a, b]));
    assert_eq!(runtime.apply_child_layout(root, &[(b, true)], false), Ok(()));
    assert_eq!(runtime.node_flags(a), Some((false, false)));
    assert_eq!(runtime.node_flags(b), Some((true, false)));
    assert_eq!(runtime.dirty_flags(root).map(|d| d.layout), Some(false));
    assert_eq!(
        runtime.apply_child_layout(WidgetId::new(5, 5), &[], false),
        Err(UiRuntimeError::InvalidWidgetId)
    );
}

#[test]
fn tab_targets_wrap_in_both_directions() {
    let a = WidgetId::new(1, 0);
    let b = WidgetId::new(2, 0);
    let c = WidgetId::new(3, 0);
    assert_eq!(tab_focus_target(&[a, b, c], Some(c), false), Some(a));
    assert_eq!(tab_focus_target(&[a, b, c], Some(a), true), Some(c));
    assert_eq!(tab_focus_target(&[a, b, c], None, true), Some(a));
    assert_eq!(tab_focus_target(&[], Some(a), false), None);
}

#[test]
fn pointer_targets_replace_and_forget_entries() {
    let a = WidgetId::new(1, 0);
    let b = WidgetId::new(2, 0);
    let mut targets = PointerTargets::new();
    targets.insert(PointerId(1), a);
    targets.insert(PointerId(2), a);
    targets.insert(PointerId(1), b);
    assert_eq!(targets.get(PointerId(1)), Some(b));
    targets.forget_widget(a);
    assert_eq!(targets.get(PointerId(2)), None);
    targets.remove(PointerId(1));
    assert_eq!(targets.get(PointerId(1)), None);
}

#[test]
fn releasing_a_pointer_ends_its_capture_and_focus_requests_are_resolved() {
    let mut runtime = UiRuntime::new("root");
    let root = runtime.root();
    let child = runtime.append_child(root, "child").expect("child");
    let mut effects = runtime.begin_effects();
    effects.pointer_capture.insert(PointerId(4), child);
    effects.focus_request = Some(FocusRequest::Focus(child));
    assert!(runtime.take_redraw_request());
    assert_eq!(runtime.finish_event(Some(PointerId(4)), effects), Some(None));
    assert_eq!(runtime.pointer_capture(PointerId(4)), None);
    assert!(!runtime.take_redraw_request());
    assert_eq!(runtime.resolve_focus_request(FocusRequest::Clear), None);
    assert_eq!(runtime.change_focus(None), Vec::<WidgetId>::new());
}

#[test]
fn captured_pointers_go_to_their_shown_capturer_before_the_hit_node() {
    let mut runtime = UiRuntime::new("root");
    let root = runtime.root();
    let capturing = runtime.append_child(root, "capturing").expect("add child");
    let other = runtime.append_child(root, "other").expect("add child");
    runtime
        .apply_child_layout(root, &[(capturing, true), (other, true)], false)
        .expect("root layout");
    let mut effects = runtime.begin_effects();
    effects.pointer_capture.insert(PointerId(0), capturing);
    runtime.finish_event(None, effects);

    assert_eq!(runtime.select_target(Some(PointerId(0)), false, Some(other)), Some(capturing));
    assert_eq!(runtime.select_target(Some(PointerId(0)), false, None), Some(capturing));
    assert_eq!(runtime.select_target(Some(PointerId(1)), false, Some(other)), Some(other));

    runtime
        .apply_child_layout(root, &[(capturing, false), (other, true)], false)
        .expect("hide the capturer");
    assert_eq!(runtime.select_target(Some(PointerId(0)), false, Some(other)), Some(other));
}

#[test]
fn wheel_and_keyboard_events_choose_the_hit_node_and_the_shown_focus() {
    let mut runtime = UiRuntime::new("root");
    let root = runtime.root();
    let field = runtime.append_child(root, "field").expect("add child");
    runtime.apply_child_layout(root, &[(field, true)], false).expect("root layout");
    runtime.apply_child_layout(field, &[], true).expect("field layout");

    assert_eq!(runtime.select_target(None, true, Some(field)), Some(field));
    assert_eq!(runtime.select_target(None, false, Some(field)), None);

    runtime.change_focus(Some(field));
    assert_eq!(runtime.select_target(None, false, None), Some(field));
    runtime.apply_child_layout(root, &[(field, false)], false).expect("hide field");
    assert_eq!(runtime.select_target(None, false, None), None);
}

#[test]
fn hover_changes_report_the_left_and_entered_nodes() {
    let mut runtime = UiRuntime::new("root");
    let root = runtime.root();
    let first = runtime.append_child(root, "first").expect("add child");
    let second = runtime.append_child(root, "second").expect("add child");
    runtime
        .apply_child_layout(root, &[(first, true), (second, true)], false)
        .expect("root layout");
    let pointer = PointerId(3);

    assert_eq!(runtime.move_hover(pointer, Some(first)), (None, Some(first)));
    assert_eq!(runtime.hovered_widget(pointer), Some(first));
    assert_eq!(runtime.move_hover(pointer, Some(first)), (None, None));
    assert_eq!(runtime.move_hover(pointer, Some(second)), (Some(first), Some(second)));

    runtime
        .apply_child_layout(root, &[(first, true), (second, false)], false)
        .expect("hide second");
    assert_eq!(runtime.move_hover(pointer, None), (None, None));
    assert_eq!(runtime.hovered_widget(pointer), None);
}

#[test]
fn history_keeps_the_newest_diagnostics_oldest_first() {
    let mut runtime = UiRuntime::new("panicking");
    for i in 0..300 {
        runtime.record_diagnostic(Diagnostic::error(String::from("torn-ui"), format!("panic {i}")));
    }
    let kept: Vec<String> = runtime.diagnostics().iter().map(|d| d.message().to_string()).collect();
    let expected: Vec<String> = (44..300).map(|i| format!("panic {i}")).collect();
    assert_eq!(kept, expected);
}

#[test]
fn appended_nodes_get_fresh_handles_in_reused_slots() {
    let mut runtime = UiRuntime::new("root");
    let root = runtime.root();
    let first = runtime.append_child(root, "first").expect("append first");
    runtime.remove_subtree(first).expect("remove first");
    let second = runtime.append_child(root, "second").expect("append second");
    assert_eq!(second.index(), first.index());
    assert_ne!(second, first);
    assert_eq!(runtime.parent(second), Some(root));
    assert_eq!(runtime.children(root), Some(&[second][..]));
    assert_eq!(runtime.children(second), Some(&[][..]));
    assert!(runtime.widget(first).is_none());
}
