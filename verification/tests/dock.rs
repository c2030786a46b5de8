use torn::{
    project_dock, DockAxis, DockItem, DockRegion, DocumentId,
    LayoutNode, PanelId, Placement, WorkspaceLayout,
};

fn panel(id: &str) -> PanelId {
    PanelId::new(id.to_string())
}

fn document(id: &str) -> DocumentId {
    DocumentId::new(id.to_string())
}

fn tab_summary(region: &DockRegion) -> (Vec<(String, bool)>, Option<Placement>) {
    match region {
        DockRegion::Tabs { tabs, content } => (
            tabs.iter()
                .map(|tab| {
                    let name = match &tab.item {
                        DockItem::Panel(id) => id.as_str().to_string(),
                        DockItem::Document(id) => id.as_str().to_string(),
                    };
                    (name, tab.active)
                })
                .collect(),
            *content,
        ),
        _ => panic!("expected a tab strip"),
    }
}

#[test]
fn projection_shows_splits_and_only_the_active_tab() {
    let left = panel("left");
    let first_tab = panel("first-tab");
    let active_tab = panel("active-tab");
    let layout = WorkspaceLayout::new(LayoutNode::split(
        DockAxis::Horizontal,
        0.25f32.to_bits(),
        LayoutNode::Panel { id: left.clone() },
        LayoutNode::Tabs {
            items: vec![first_tab.clone(), active_tab.clone()],
            active: Some(active_tab.clone()),
        },
    ))
    .expect("valid workspace");
    let bindings = vec![
        DockItem::Panel(left),
        DockItem::Panel(first_tab),
        DockItem::Panel(active_tab),
    ];

    match project_dock(layout.root(), &bindings) {
        DockRegion::Split { axis, ratio, resize_panel, first, second } => {
            assert_eq!(axis, DockAxis::Horizontal);
            assert_eq!(ratio, 0.25f32.to_bits());
            assert_eq!(resize_panel.expect("the split holds a panel").as_str(), "left");
            assert!(matches!(*first, DockRegion::Item(Placement::Child(0))));
            let (tabs, content) = tab_summary(&second);
            assert_eq!(
                tabs,
                vec![("first-tab".to_string(), false), ("active-tab".to_string(), true)]
            );
            assert_eq!(content, Some(Placement::Child(2)));
        }
        _ => panic!("expected a split"),
    }
}

#[test]
fn projection_follows_the_active_panel() {
    let first = panel("first");
    let second = panel("second");
    let mut layout = WorkspaceLayout::new(LayoutNode::tabs(vec![first.clone(), second.clone()]))
        .expect("valid workspace");
    let bindings = vec![DockItem::Panel(first), DockItem::Panel(second.clone())];

    let (_, content) = tab_summary(&project_dock(layout.root(), &bindings));
    assert_eq!(content, Some(Placement::Child(0)));

    layout.activate_panel(&second).expect("second panel is docked");
    let (tabs, content) = tab_summary(&project_dock(layout.root(), &bindings));
    assert_eq!(tabs, vec![("first".to_string(), false), ("second".to_string(), true)]);
    assert_eq!(content, Some(Placement::Child(1)));
}

#[test]
fn unbound_items_are_reported_missing() {
    let bound = panel("bound");
    let unbound = panel("unbound");
    let root = LayoutNode::split(
        DockAxis::Vertical,
        0.5f32.to_bits(),
        LayoutNode::Panel { id: unbound },
        LayoutNode::Panel { id: bound.clone() },
    );
    let bindings = vec![DockItem::Document(document("bound")), DockItem::Panel(bound)];

    match project_dock(&root, &bindings) {
        DockRegion::Split { first, second, resize_panel, .. } => {
            assert_eq!(resize_panel.expect("split holds panels").as_str(), "unbound");
            assert!(matches!(*first, DockRegion::Item(Placement::Missing)));
            assert!(matches!(*second, DockRegion::Item(Placement::Child(1))));
        }
        _ => panic!("expected a split"),
    }
}

#[test]
fn document_areas_project_as_tab_strips() {
    let notes = document("notes");
    let plan = document("plan");
    let root = LayoutNode::Documents {
        presentation: torn::DocumentPresentation::Tabbed,
        items: vec![notes.clone(), plan.clone()],
        active: Some(plan.clone()),
    };
    let bindings = vec![DockItem::Document(plan), DockItem::Document(notes)];

    let (tabs, content) = tab_summary(&project_dock(&root, &bindings));
    assert_eq!(tabs, vec![("notes".to_string(), false), ("plan".to_string(), true)]);
    assert_eq!(content, Some(Placement::Child(0)));
}

#[test]
fn empty_groups_and_unselected_groups_show_no_content() {
    let empty = LayoutNode::Tabs { items: Vec::new(), active: Some(panel("ghost")) };
    let bindings = vec![DockItem::Panel(panel("ghost"))];
    let (tabs, content) = tab_summary(&project_dock(&empty, &bindings));
    assert!(tabs.is_empty());
    assert_eq!(content, None);

    let unselected = LayoutNode::Tabs { items: vec![panel("ghost")], active: None };
    let (tabs, content) = tab_summary(&project_dock(&unselected, &bindings));
    assert_eq!(tabs, vec![("ghost".to_string(), false)]);
    assert_eq!(content, None);

    assert!(matches!(project_dock(&LayoutNode::Empty, &bindings), DockRegion::Empty));
}

#[test]
fn a_split_of_documents_resizes_no_panel() {
    let root = LayoutNode::split(
        DockAxis::Horizontal,
        0.5f32.to_bits(),
        LayoutNode::documents(vec![document("a")]),
        LayoutNode::Empty,
    );
    match project_dock(&root, &[]) {
        DockRegion::Split { resize_panel, .. } => assert!(resize_panel.is_none()),
        _ => panic!("expected a split"),
    }
}

#[test]
fn floating_and_hidden_panels_get_no_content() {
    let docked = panel("docked");
    let floating = panel("floating");
    let hidden = panel("hidden");
    let mut layout = WorkspaceLayout::new(LayoutNode::tabs(vec![
        docked.clone(),
        floating.clone(),
        hidden.clone(),
    ]))
    .expect("valid workspace");
    let bounds = torn::WorkspaceBounds::new(
        0.0f32.to_bits(),
        0.0f32.to_bits(),
        100.0f32.to_bits(),
        80.0f32.to_bits(),
    )
    .expect("valid bounds");
    layout.float_panel(&floating, bounds).expect("can float panel");
    layout.hide_panel(&hidden).expect("can hide panel");
    let bindings = vec![
        DockItem::Panel(docked),
        DockItem::Panel(floating),
        DockItem::Panel(hidden),
    ];

    assert!(matches!(
        project_dock(layout.root(), &bindings),
        DockRegion::Item(Placement::Child(0))
    ));
    assert_eq!(layout.hidden().len(), 1);
    assert_eq!(layout.floating().len(), 1);
}
