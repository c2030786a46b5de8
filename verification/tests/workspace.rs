use torn::{
    DockAxis, DocumentId, FloatingPanel, LayoutNode, PanelId, SplitPlacement, WorkspaceBounds,
    WorkspaceError, WorkspaceLayout,
};

fn panel(id: &str) -> PanelId {
    PanelId::new(id.to_string())
}

fn document(id: &str) -> DocumentId {
    DocumentId::new(id.to_string())
}

fn bounds() -> WorkspaceBounds {
    WorkspaceBounds::new(10.0f32.to_bits(), 20.0f32.to_bits(), 300.0f32.to_bits(), 200.0f32.to_bits())
        .expect("valid test bounds")
}

fn ratio(node: &LayoutNode) -> f32 {
    match node {
        LayoutNode::Split { ratio, .. } => f32::from_bits(*ratio),
        _ => panic!("expected a split"),
    }
}

#[test]
fn moves_panels_between_tabs_floating_and_hidden_without_duplicates() {
    let left = panel("left");
    let right = panel("right");
    let mut layout = WorkspaceLayout::new(LayoutNode::Panel { id: left.clone() })
        .expect("initial layout is valid");

    layout.move_to_tabs(&left, right.clone()).expect("can add a registered panel");
    layout.float_panel(&right, bounds()).expect("can float panel");
    layout.hide_panel(&right).expect("can hide floating panel");
    layout.show_panel(&right, &left).expect("can show hidden panel");

    assert!(
        matches!(layout.root(), LayoutNode::Tabs { items, active: Some(active) } if items == &vec![left, right.clone()] && active == &right)
    );
    assert!(layout.floating().is_empty());
    assert!(layout.hidden().is_empty());
    assert!(layout.validate().is_ok());
}

#[test]
fn splitting_a_tab_group_preserves_its_existing_tabs() {
    let first = panel("first");
    let second = panel("second");
    let third = panel("third");
    let mut layout = WorkspaceLayout::new(LayoutNode::tabs(vec![first.clone(), second]))
        .expect("initial layout is valid");

    layout
        .split_panel(&first, third.clone(), DockAxis::Horizontal, 0.01f32.to_bits(), SplitPlacement::Second)
        .expect("can split a tab group");

    assert!((ratio(layout.root()) - 0.1).abs() < f32::EPSILON);
    assert!(
        matches!(layout.root(), LayoutNode::Split { first, second, .. } if matches!(first.as_ref(), LayoutNode::Tabs { .. }) && matches!(second.as_ref(), LayoutNode::Panel { id } if id == &third))
    );
}

#[test]
fn failed_operation_keeps_the_original_layout() {
    let source = panel("source");
    let missing_target = panel("missing");
    let mut layout = WorkspaceLayout::new(LayoutNode::Panel { id: source.clone() })
        .expect("initial layout is valid");
    let original = layout.clone();

    assert_eq!(
        layout.move_to_tabs(&missing_target, source),
        Err(WorkspaceError::PanelNotFound(missing_target))
    );
    assert_eq!(layout, original);
}

#[test]
fn resizing_a_split_clamps_the_ratio_and_preserves_the_layout() {
    let left = panel("left");
    let right = panel("right");
    let mut layout = WorkspaceLayout::new(LayoutNode::split(
        DockAxis::Horizontal,
        0.5f32.to_bits(),
        LayoutNode::Panel { id: left.clone() },
        LayoutNode::Panel { id: right },
    ))
    .expect("initial layout is valid");

    layout.resize_split_for_panel(&left, 2.0f32.to_bits()).expect("docked panel identifies its split");

    assert!((ratio(layout.root()) - 0.9).abs() < f32::EPSILON);
    assert!(layout.validate().is_ok());
}

#[test]
fn rejects_duplicate_panel_ids_across_docked_and_floating_locations() {
    let id = panel("inspector");
    let layout = WorkspaceLayout::new(LayoutNode::Panel { id: id.clone() })
        .expect("initial layout is valid");
    let layout = WorkspaceLayout::from_parts(
        layout.version(),
        layout.root().clone(),
        vec![FloatingPanel { id: id.clone(), bounds: bounds(), visible: true, z_order: 1 }],
        Vec::new(),
        Vec::new(),
    );

    assert_eq!(layout.validate(), Err(WorkspaceError::DuplicatePanel(id)));
}

#[test]
fn freeform_documents_round_trip_to_the_document_area() {
    let first = document("first");
    let second = document("second");
    let mut layout =
        WorkspaceLayout::new(LayoutNode::documents(vec![first.clone(), second.clone()]))
            .expect("initial layout is valid");

    layout.float_document(&second, bounds()).expect("can float document");
    layout.dock_document(&second).expect("can return document to central area");

    assert!(
        matches!(layout.root(), LayoutNode::Documents { items, active: Some(active), .. } if items == &vec![first, second.clone()] && active == &second)
    );
}

#[test]
fn decoding_a_saved_layout_gives_it_back() {
    let layout = WorkspaceLayout::new(LayoutNode::split(
        DockAxis::Vertical,
        0.5f32.to_bits(),
        LayoutNode::Panel { id: panel("known") },
        LayoutNode::Panel { id: panel("unknown") },
    ))
    .expect("initial layout is valid");
    let stored = layout.clone();
    let restored = WorkspaceLayout::from_decoded(stored).expect("decoding succeeds");
    assert_eq!(restored, layout);
}

#[test]
fn decoding_normalizes_ratios_and_rejects_other_versions() {
    let root = LayoutNode::Split {
        axis: DockAxis::Horizontal,
        ratio: f32::NAN.to_bits(),
        first: Box::new(LayoutNode::Tabs { items: vec![panel("a"), panel("b")], active: Some(panel("zz")) }),
        second: Box::new(LayoutNode::Panel { id: panel("c") }),
    };
    let decoded = WorkspaceLayout::from_decoded(WorkspaceLayout::from_parts(
        1,
        root.clone(),
        Vec::new(),
        Vec::new(),
        Vec::new(),
    ))
    .expect("a repairable layout decodes");
    assert_eq!(ratio(decoded.root()), 0.5);
    assert!(matches!(decoded.root(), LayoutNode::Split { first, .. } if matches!(first.as_ref(), LayoutNode::Tabs { active: Some(a), .. } if a == &panel("a"))));

    assert_eq!(
        WorkspaceLayout::from_decoded(WorkspaceLayout::from_parts(2, root.clone(), Vec::new(), Vec::new(), Vec::new())),
        Err(WorkspaceError::UnsupportedVersion(2))
    );
    assert_eq!(
        WorkspaceLayout::from_decoded(WorkspaceLayout::from_parts(0, root, Vec::new(), Vec::new(), Vec::new())),
        Err(WorkspaceError::MigrationRequired(0))
    );
}

#[test]
fn restore_keeps_the_current_layout_when_the_candidate_is_invalid() {
    let mut layout = WorkspaceLayout::new(LayoutNode::Panel { id: panel("a") }).expect("valid");
    let original = layout.clone();
    let candidate = WorkspaceLayout::from_parts(
        1,
        LayoutNode::tabs(vec![panel("x"), panel("x")]),
        Vec::new(),
        Vec::new(),
        Vec::new(),
    );
    assert_eq!(layout.restore(candidate), Err(WorkspaceError::DuplicatePanel(panel("x"))));
    assert_eq!(layout, original);

    let good = WorkspaceLayout::from_parts(1, LayoutNode::Panel { id: panel("b") }, Vec::new(), vec![panel("c")], Vec::new());
    assert_eq!(layout.restore(good), Ok(()));
    assert_eq!(layout.hidden(), &[panel("c")]);
}

#[test]
fn operations_report_each_error_kind() {
    let a = panel("a");
    let b = panel("b");
    let mut layout = WorkspaceLayout::new(LayoutNode::split(
        DockAxis::Horizontal,
        0.5f32.to_bits(),
        LayoutNode::Panel { id: a.clone() },
        LayoutNode::documents(vec![document("d")]),
    ))
    .expect("valid");
    assert_eq!(layout.move_to_tabs(&a, a.clone()), Err(WorkspaceError::SameSourceAndTarget));
    assert_eq!(layout.split_panel(&a, a.clone(), DockAxis::Vertical, 0, SplitPlacement::First), Err(WorkspaceError::SameSourceAndTarget));
    assert_eq!(layout.hide_panel(&b), Err(WorkspaceError::PanelNotFound(b.clone())));
    assert_eq!(layout.show_panel(&b, &a), Err(WorkspaceError::PanelNotHidden(b.clone())));
    assert_eq!(layout.activate_panel(&b), Err(WorkspaceError::PanelNotFound(b.clone())));
    assert_eq!(layout.float_document(&document("x"), bounds()), Err(WorkspaceError::DocumentNotFound(document("x"))));
    assert_eq!(layout.dock_document(&document("d")), Err(WorkspaceError::DocumentNotFound(document("d"))));
    assert_eq!(layout.activate_document(&document("x")), Err(WorkspaceError::DocumentNotFound(document("x"))));
    assert_eq!(
        WorkspaceBounds::new(0, 0, (-1.0f32).to_bits(), 0),
        Err(WorkspaceError::InvalidBounds)
    );
    assert!(WorkspaceBounds::new(0, 0, (-0.0f32).to_bits(), 0).is_ok());
    assert_eq!(
        WorkspaceLayout::new(LayoutNode::split(
            DockAxis::Horizontal,
            0,
            LayoutNode::documents(vec![]),
            LayoutNode::documents(vec![]),
        )),
        Err(WorkspaceError::MultipleDocumentAreas)
    );
    let no_area = WorkspaceLayout::from_parts(1, LayoutNode::Empty, Vec::new(), Vec::new(), Vec::new());
    let mut no_area = WorkspaceLayout::from_decoded(no_area).expect("valid");
    let free = WorkspaceLayout::from_parts(
        1,
        LayoutNode::Empty,
        Vec::new(),
        Vec::new(),
        vec![torn::FloatingDocument { id: document("f"), bounds: bounds(), visible: true, z_order: 3 }],
    );
    no_area.restore(free).expect("valid");
    assert_eq!(no_area.dock_document(&document("f")), Err(WorkspaceError::DocumentsAreaNotFound));
    assert_eq!(no_area.activate_document(&document("f")), Ok(()));
    assert_eq!(no_area.freeform_documents()[0].z_order, 4);
}

#[test]
fn floating_panels_stack_above_each_other_and_hiding_removes_them() {
    let a = panel("a");
    let b = panel("b");
    let mut layout = WorkspaceLayout::new(LayoutNode::tabs(vec![a.clone(), b.clone(), panel("c")]))
        .expect("valid");
    layout.float_panel(&a, bounds()).expect("float a");
    layout.float_panel(&b, bounds()).expect("float b");
    let orders: Vec<u32> = layout.floating().iter().map(|p| p.z_order).collect();
    assert_eq!(orders, vec![1, 2]);
    assert!(matches!(layout.root(), LayoutNode::Panel { id } if id == &panel("c")));
    layout.hide_panel(&a).expect("hide floating a");
    assert_eq!(layout.floating().len(), 1);
    assert_eq!(layout.hidden(), &[a.clone()]);
    layout.dock_panel(&panel("c"), b.clone()).expect("dock b beside c");
    assert!(layout.floating().is_empty());
    layout.activate_panel(&panel("c")).expect("activate c");
    assert!(matches!(layout.root(), LayoutNode::Tabs { active: Some(x), .. } if x == &panel("c")));
}

#[test]
fn detaching_the_last_panel_of_a_branch_collapses_its_split() {
    let mut layout = WorkspaceLayout::new(LayoutNode::split(
        DockAxis::Horizontal,
        0.3f32.to_bits(),
        LayoutNode::Panel { id: panel("left") },
        LayoutNode::Panel { id: panel("right") },
    ))
    .expect("valid");
    layout.hide_panel(&panel("left")).expect("hide left");
    assert!(matches!(layout.root(), LayoutNode::Panel { id } if id == &panel("right")));
    assert_eq!(
        WorkspaceError::PanelNotFound(panel("q")).describe(),
        "panel `q` was not found"
    );
}

fn docked_panels(node: &LayoutNode, out: &mut Vec<String>) {
    match node {
        LayoutNode::Split { first, second, .. } => {
            docked_panels(first, out);
            docked_panels(second, out);
        }
        LayoutNode::Tabs { items, .. } => out.extend(items.iter().map(|id| id.as_str().to_string())),
        LayoutNode::Panel { id } => out.push(id.as_str().to_string()),
        _ => {}
    }
}

fn every_panel(layout: &WorkspaceLayout) -> Vec<String> {
    let mut all = Vec::new();
    docked_panels(layout.root(), &mut all);
    all.extend(layout.floating().iter().map(|p| p.id.as_str().to_string()));
    all.extend(layout.hidden().iter().map(|p| p.as_str().to_string()));
    all.sort();
    all
}

#[test]
fn operations_neither_lose_nor_invent_panels() {
    let a = panel("a");
    let b = panel("b");
    let c = panel("c");
    let mut layout = WorkspaceLayout::new(LayoutNode::split(
        DockAxis::Vertical,
        0.5f32.to_bits(),
        LayoutNode::tabs(vec![a.clone(), b.clone()]),
        LayoutNode::Panel { id: c.clone() },
    ))
    .expect("initial layout is valid");
    let before = every_panel(&layout);

    layout.float_panel(&b, bounds()).expect("float b");
    assert_eq!(every_panel(&layout), before);
    layout.hide_panel(&c).expect("hide c");
    assert_eq!(every_panel(&layout), before);
    layout.show_panel(&c, &a).expect("show c");
    assert_eq!(every_panel(&layout), before);
    layout.move_to_tabs(&a, b.clone()).expect("dock b");
    assert_eq!(every_panel(&layout), before);
    layout.move_to_tabs(&a, panel("d")).expect("add d");
    assert_eq!(every_panel(&layout), vec!["a", "b", "c", "d"]);
}

#[test]
fn errors_describe_themselves_with_identifiers_and_versions() {
    assert_eq!(
        WorkspaceError::UnsupportedVersion(12).describe(),
        "workspace format version 12 is newer than supported"
    );
    assert_eq!(
        WorkspaceError::MigrationRequired(0).describe(),
        "workspace format version 0 requires a migration"
    );
    assert_eq!(
        WorkspaceError::PanelNotHidden(panel("tools")).describe(),
        "panel `tools` is not hidden"
    );
    assert_eq!(
        WorkspaceError::UnsupportedVersion(4_294_967_295).describe(),
        "workspace format version 4294967295 is newer than supported"
    );
}

#[test]
fn floating_and_hiding_refuse_panels_in_the_wrong_place() {
    let a = panel("a");
    let b = panel("b");
    let c = panel("c");
    let mut layout = WorkspaceLayout::new(LayoutNode::tabs(vec![a.clone(), b.clone(), c.clone()]))
        .expect("valid");
    layout.float_panel(&a, bounds()).expect("float a");
    layout.hide_panel(&b).expect("hide docked b");
    let before = layout.clone();
    assert_eq!(layout.float_panel(&a, bounds()), Err(WorkspaceError::PanelNotFound(a.clone())));
    assert_eq!(layout.float_panel(&b, bounds()), Err(WorkspaceError::PanelNotFound(b.clone())));
    assert_eq!(layout.hide_panel(&b), Err(WorkspaceError::PanelNotFound(b.clone())));
    assert_eq!(layout, before);
}

#[test]
fn moving_to_tabs_selects_the_panel_beside_its_target_and_nowhere_else() {
    let a = panel("a");
    let b = panel("b");
    let c = panel("c");
    let mut layout = WorkspaceLayout::new(LayoutNode::split(
        DockAxis::Horizontal,
        0.5f32.to_bits(),
        LayoutNode::Panel { id: a.clone() },
        LayoutNode::tabs(vec![b.clone(), c.clone()]),
    ))
    .expect("valid");
    layout.float_panel(&a, bounds()).expect("float a");
    assert_eq!(layout.move_to_tabs(&panel("z"), a.clone()), Err(WorkspaceError::PanelNotFound(panel("z"))));
    layout.move_to_tabs(&b, a.clone()).expect("tab a beside b");
    assert!(
        matches!(layout.root(), LayoutNode::Tabs { items, active: Some(x) } if items == &vec![b.clone(), c.clone(), a.clone()] && x == &a)
    );
    assert!(layout.floating().is_empty());
    assert!(layout.hidden().is_empty());
    assert!(layout.validate().is_ok());
}
