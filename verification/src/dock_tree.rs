//! The docked-content tree of a workspace and its structural operations.

use vstd::prelude::*;

use crate::binary32::{is_normalized_ratio, normalize_ratio, normalized_ratio};
use crate::dock_ids::{
    lemma_map_push, lemma_map_remove, lemma_remove_value_absent, lemma_remove_value_at, take_document_id, take_id,
    contains_document_id, contains_panel_id, document_text_opt, document_texts, panel_text_opt,
    panel_texts, DockAxis, DocumentId, DocumentPresentation, PanelId, SplitPlacement,
};

verus! {

/// A node in the docked workspace tree.
#[derive(Debug, PartialEq)]
pub enum LayoutNode {
    /// Two docked branches split along an axis.
    Split {
        /// Split orientation.
        axis: DockAxis,
        /// binary32 encoding of the first-branch proportion; normalized
        /// layouts keep it in the inclusive `0.1..=0.9` range.
        ratio: u32,
        /// First branch.
        first: Box<LayoutNode>,
        /// Second branch.
        second: Box<LayoutNode>,
    },
    /// An ordered group of dock tabs.
    Tabs {
        /// Ordered panel IDs.
        items: Vec<PanelId>,
        /// Selected panel ID, if one exists.
        active: Option<PanelId>,
    },
    /// One docked tool panel.
    Panel {
        /// Stable panel ID.
        id: PanelId,
    },
    /// The central document region.
    Documents {
        /// How documents are currently presented.
        presentation: DocumentPresentation,
        /// Ordered docked document IDs.
        items: Vec<DocumentId>,
        /// Selected document ID, if one exists.
        active: Option<DocumentId>,
    },
    /// An intentional unoccupied location in the dock tree.
    Empty,
}

/// The mathematical model of a [`LayoutNode`]: identifiers are their texts.
pub enum NodeView {
    /// Two branches split along `axis` with the encoded `ratio`.
    Split { axis: DockAxis, ratio: u32, first: Box<NodeView>, second: Box<NodeView> },
    /// Ordered tab items and the selected one.
    Tabs { items: Seq<Seq<char>>, active: Option<Seq<char>> },
    /// One panel.
    Panel { id: Seq<char> },
    /// The document area.
    Documents {
        presentation: DocumentPresentation,
        items: Seq<Seq<char>>,
        active: Option<Seq<char>>,
    },
    /// An empty slot.
    Empty,
}

impl LayoutNode {
    /// The model of this node.
    pub open spec fn shape(&self) -> NodeView
        decreases self,
    {
        match self {
            LayoutNode::Split { axis, ratio, first, second } => NodeView::Split {
                axis: *axis,
                ratio: *ratio,
                first: Box::new(first.shape()),
                second: Box::new(second.shape()),
            },
            LayoutNode::Tabs { items, active } => NodeView::Tabs {
                items: panel_texts(items@),
                active: panel_text_opt(*active),
            },
            LayoutNode::Panel { id } => NodeView::Panel { id: id@ },
            LayoutNode::Documents { presentation, items, active } => NodeView::Documents {
                presentation: *presentation,
                items: document_texts(items@),
                active: document_text_opt(*active),
            },
            LayoutNode::Empty => NodeView::Empty,
        }
    }
}

impl View for LayoutNode {
    type V = NodeView;

    open spec fn view(&self) -> NodeView {
        self.shape()
    }
}

/// Copies a vector of panel identifiers.
fn copy_panel_ids(ids: &Vec<PanelId>) -> (r: Vec<PanelId>)
    ensures
        r@ == ids@,
{
    let mut r: Vec<PanelId> = Vec::new();
    let mut i: usize = 0;
    while i < ids.len()
        invariant
            i <= ids.len(),
            r@ == ids@.subrange(0, i as int),
        decreases ids.len() - i,
    {
        r.push(ids[i].clone());
        i = i + 1;
    }
    assert(r@ =~= ids@);
    r
}

/// Copies a vector of document identifiers.
fn copy_document_ids(ids: &Vec<DocumentId>) -> (r: Vec<DocumentId>)
    ensures
        r@ == ids@,
{
    let mut r: Vec<DocumentId> = Vec::new();
    let mut i: usize = 0;
    while i < ids.len()
        invariant
            i <= ids.len(),
            r@ == ids@.subrange(0, i as int),
        decreases ids.len() - i,
    {
        r.push(ids[i].clone());
        i = i + 1;
    }
    assert(r@ =~= ids@);
    r
}

impl Clone for LayoutNode {
    fn clone(&self) -> (r: Self)
        ensures
            r@ == self@,
        decreases self,
    {
        match self {
            LayoutNode::Split { axis, ratio, first, second } => {
                let f = (**first).clone();
                let s = (**second).clone();
                LayoutNode::Split { axis: *axis, ratio: *ratio, first: Box::new(f), second: Box::new(s) }
            },
            LayoutNode::Tabs { items, active } => {
                let a = match active {
                    Some(id) => Some(id.clone()),
                    None => None,
                };
                LayoutNode::Tabs { items: copy_panel_ids(items), active: a }
            },
            LayoutNode::Panel { id } => LayoutNode::Panel { id: id.clone() },
            LayoutNode::Documents { presentation, items, active } => {
                let a = match active {
                    Some(id) => Some(id.clone()),
                    None => None,
                };
                LayoutNode::Documents {
                    presentation: *presentation,
                    items: copy_document_ids(items),
                    active: a,
                }
            },
            LayoutNode::Empty => LayoutNode::Empty,
        }
    }
}

/// The first element of a sequence of identifier texts, if any.
pub open spec fn first_text(items: Seq<Seq<char>>) -> Option<Seq<char>> {
    if items.len() > 0 {
        Some(items[0])
    } else {
        None
    }
}

/// Whether `panel` is docked somewhere in `node`.
pub open spec fn node_contains_panel(node: NodeView, panel: Seq<char>) -> bool
    decreases node,
{
    match node {
        NodeView::Split { first, second, .. } => node_contains_panel(*first, panel)
            || node_contains_panel(*second, panel),
        NodeView::Tabs { items, .. } => items.contains(panel),
        NodeView::Panel { id } => id == panel,
        _ => false,
    }
}

/// Returns whether `panel` is docked somewhere in `node`.
pub fn contains_panel(node: &LayoutNode, panel: &PanelId) -> (r: bool)
    ensures
        r == node_contains_panel(node@, panel@),
    decreases node,
{
    match node {
        LayoutNode::Split { first, second, .. } => contains_panel(first, panel) || contains_panel(
            second,
            panel,
        ),
        LayoutNode::Tabs { items, .. } => contains_panel_id(items, panel),
        LayoutNode::Panel { id } => id.same_as(panel),
        LayoutNode::Documents { .. } => false,
        LayoutNode::Empty => false,
    }
}


impl LayoutNode {
    /// Creates a dock split with a normalized ratio.
    pub fn split(axis: DockAxis, ratio: u32, first: LayoutNode, second: LayoutNode) -> (r: LayoutNode)
        ensures
            r@ == (NodeView::Split {
                axis,
                ratio: normalized_ratio(ratio),
                first: Box::new(first@),
                second: Box::new(second@),
            }),
    {
        LayoutNode::Split {
            axis,
            ratio: normalize_ratio(ratio),
            first: Box::new(first),
            second: Box::new(second),
        }
    }

    /// Creates a tab group and selects its first item, when present.
    pub fn tabs(items: Vec<PanelId>) -> (r: LayoutNode)
        ensures
            r@ == (NodeView::Tabs {
                items: panel_texts(items@),
                active: first_text(panel_texts(items@)),
            }),
    {
        let active = if items.len() > 0 {
            Some(items[0].clone())
        } else {
            None
        };
        LayoutNode::Tabs { items, active }
    }

    /// Creates the central tabbed document region and selects its first item.
    pub fn documents(items: Vec<DocumentId>) -> (r: LayoutNode)
        ensures
            r@ == (NodeView::Documents {
                presentation: DocumentPresentation::Tabbed,
                items: document_texts(items@),
                active: first_text(document_texts(items@)),
            }),
    {
        let active = if items.len() > 0 {
            Some(items[0].clone())
        } else {
            None
        };
        LayoutNode::Documents { presentation: DocumentPresentation::Tabbed, items, active }
    }
}

/// A new split that places `panel` beside `existing` on the requested side.
pub open spec fn placed_split(
    axis: DockAxis,
    ratio: u32,
    placement: SplitPlacement,
    panel: Seq<char>,
    existing: NodeView,
) -> NodeView {
    match placement {
        SplitPlacement::First => NodeView::Split {
            axis,
            ratio: normalized_ratio(ratio),
            first: Box::new(NodeView::Panel { id: panel }),
            second: Box::new(existing),
        },
        SplitPlacement::Second => NodeView::Split {
            axis,
            ratio: normalized_ratio(ratio),
            first: Box::new(existing),
            second: Box::new(NodeView::Panel { id: panel }),
        },
    }
}

/// The tree after splitting the first panel or tab group (in depth-first,
/// first-branch-first order) that holds `target`, or `None` when no such node
/// exists.
pub open spec fn split_at(
    node: NodeView,
    target: Seq<char>,
    panel: Seq<char>,
    axis: DockAxis,
    ratio: u32,
    placement: SplitPlacement,
) -> Option<NodeView>
    decreases node,
{
    match node {
        NodeView::Split { axis: a, ratio: q, first, second } => match split_at(
            *first,
            target,
            panel,
            axis,
            ratio,
            placement,
        ) {
            Some(f) => Some(NodeView::Split { axis: a, ratio: q, first: Box::new(f), second }),
            None => match split_at(*second, target, panel, axis, ratio, placement) {
                Some(t) => Some(NodeView::Split { axis: a, ratio: q, first, second: Box::new(t) }),
                None => None,
            },
        },
        NodeView::Panel { id } => if id == target {
            Some(placed_split(axis, ratio, placement, panel, node))
        } else {
            None
        },
        NodeView::Tabs { items, .. } => if items.contains(target) {
            Some(placed_split(axis, ratio, placement, panel, node))
        } else {
            None
        },
        _ => None,
    }
}

/// Splits the node that holds `target` and puts `panel` into the requested
/// branch. Returns the new tree and whether `target` was found; the tree is
/// unchanged when it was not.
pub fn split_at_panel(
    node: LayoutNode,
    target: &PanelId,
    panel: &PanelId,
    axis: DockAxis,
    ratio: u32,
    placement: SplitPlacement,
) -> (r: (LayoutNode, bool))
    ensures
        match split_at(node@, target@, panel@, axis, ratio, placement) {
            Some(n) => r.1 && r.0@ == n,
            None => !r.1 && r.0@ == node@,
        },
    decreases node,
{
    match node {
        LayoutNode::Split { axis: a, ratio: q, first, second } => {
            let (f, done) = split_at_panel(*first, target, panel, axis, ratio, placement);
            if done {
                return (LayoutNode::Split { axis: a, ratio: q, first: Box::new(f), second }, true);
            }
            let (t, done2) = split_at_panel(*second, target, panel, axis, ratio, placement);
            (LayoutNode::Split { axis: a, ratio: q, first: Box::new(f), second: Box::new(t) }, done2)
        },
        LayoutNode::Panel { id } => {
            if id.same_as(target) {
                let existing = LayoutNode::Panel { id };
                (place_split(axis, ratio, placement, panel, existing), true)
            } else {
                (LayoutNode::Panel { id }, false)
            }
        },
        LayoutNode::Tabs { items, active } => {
            if contains_panel_id(&items, target) {
                let existing = LayoutNode::Tabs { items, active };
                (place_split(axis, ratio, placement, panel, existing), true)
            } else {
                (LayoutNode::Tabs { items, active }, false)
            }
        },
        other => (other, false),
    }
}

fn place_split(
    axis: DockAxis,
    ratio: u32,
    placement: SplitPlacement,
    panel: &PanelId,
    existing: LayoutNode,
) -> (r: LayoutNode)
    ensures
        r@ == placed_split(axis, ratio, placement, panel@, existing@),
{
    let moved = LayoutNode::Panel { id: panel.clone() };
    match placement {
        SplitPlacement::First => LayoutNode::split(axis, ratio, moved, existing),
        SplitPlacement::Second => LayoutNode::split(axis, ratio, existing, moved),
    }
}

/// The tree after adding `panel` as the active tab beside the first panel or
/// tab group that holds `target`, or `None` when no such node exists.
pub open spec fn tab_with(node: NodeView, target: Seq<char>, panel: Seq<char>) -> Option<NodeView>
    decreases node,
{
    match node {
        NodeView::Split { axis, ratio, first, second } => match tab_with(*first, target, panel) {
            Some(f) => Some(NodeView::Split { axis, ratio, first: Box::new(f), second }),
            None => match tab_with(*second, target, panel) {
                Some(t) => Some(NodeView::Split { axis, ratio, first, second: Box::new(t) }),
                None => None,
            },
        },
        NodeView::Tabs { items, active } => if items.contains(target) {
            Some(NodeView::Tabs { items: items.push(panel), active: Some(panel) })
        } else {
            None
        },
        NodeView::Panel { id } => if id == target {
            Some(NodeView::Tabs { items: seq![id, panel], active: Some(panel) })
        } else {
            None
        },
        _ => None,
    }
}

/// Adds `panel` as the active tab beside `target`. Returns the new tree and
/// whether `target` was found; the tree is unchanged when it was not.
pub fn tab_with_panel(node: LayoutNode, target: &PanelId, panel: &PanelId) -> (r: (
    LayoutNode,
    bool,
))
    ensures
        match tab_with(node@, target@, panel@) {
            Some(n) => r.1 && r.0@ == n,
            None => !r.1 && r.0@ == node@,
        },
    decreases node,
{
    match node {
        LayoutNode::Split { axis, ratio, first, second } => {
            let (f, done) = tab_with_panel(*first, target, panel);
            if done {
                return (LayoutNode::Split { axis, ratio, first: Box::new(f), second }, true);
            }
            let (t, done2) = tab_with_panel(*second, target, panel);
            (LayoutNode::Split { axis, ratio, first: Box::new(f), second: Box::new(t) }, done2)
        },
        LayoutNode::Tabs { items, active } => {
            if contains_panel_id(&items, target) {
                let mut items = items;
                let ghost before = items@;
                items.push(panel.clone());
                proof {
                    lemma_map_push(before, |id: PanelId| id@, *panel);
                }
                (LayoutNode::Tabs { items, active: Some(panel.clone()) }, true)
            } else {
                (LayoutNode::Tabs { items, active }, false)
            }
        },
        LayoutNode::Panel { id } => {
            if id.same_as(target) {
                let mut items: Vec<PanelId> = Vec::new();
                items.push(id);
                items.push(panel.clone());
                let ghost texts = panel_texts(items@);
                assert(texts =~= seq![texts[0], texts[1]]);
                (LayoutNode::Tabs { items, active: Some(panel.clone()) }, true)
            } else {
                (LayoutNode::Panel { id }, false)
            }
        },
        other => (other, false),
    }
}


/// A split whose branch became empty is replaced by its other branch.
pub open spec fn collapsed(node: NodeView) -> NodeView {
    match node {
        NodeView::Split { first, second, .. } => if *first is Empty {
            *second
        } else if *second is Empty {
            *first
        } else {
            node
        },
        _ => node,
    }
}

/// The tree after removing the first docked occurrence of `panel`, and whether
/// one was found. Tab groups left with one tab become a panel, emptied nodes
/// become `Empty`, and a split with an emptied branch collapses into its
/// other branch.
pub open spec fn detached(node: NodeView, panel: Seq<char>) -> (NodeView, bool)
    decreases node,
{
    match node {
        NodeView::Split { axis, ratio, first, second } => {
            let (f, removed_first) = detached(*first, panel);
            if removed_first {
                (collapsed(NodeView::Split { axis, ratio, first: Box::new(f), second }), true)
            } else {
                let (t, removed_second) = detached(*second, panel);
                if removed_second {
                    (collapsed(NodeView::Split { axis, ratio, first, second: Box::new(t) }), true)
                } else {
                    (node, false)
                }
            }
        },
        NodeView::Tabs { items, active } => if items.contains(panel) {
            let rest = items.remove_value(panel);
            let selected = if active == Some(panel) {
                first_text(rest)
            } else {
                active
            };
            (
                if rest.len() == 0 {
                    NodeView::Empty
                } else if rest.len() == 1 {
                    NodeView::Panel { id: rest[0] }
                } else {
                    NodeView::Tabs { items: rest, active: selected }
                },
                true,
            )
        } else {
            (node, false)
        },
        NodeView::Panel { id } => if id == panel {
            (NodeView::Empty, true)
        } else {
            (node, false)
        },
        _ => (node, false),
    }
}

fn is_empty_node(node: &LayoutNode) -> (r: bool)
    ensures
        r == (node@ is Empty),
{
    match node {
        LayoutNode::Empty => true,
        _ => false,
    }
}

fn collapse_split(node: LayoutNode) -> (r: LayoutNode)
    ensures
        r@ == collapsed(node@),
{
    match node {
        LayoutNode::Split { axis, ratio, first, second } => {
            if is_empty_node(&first) {
                *second
            } else if is_empty_node(&second) {
                *first
            } else {
                LayoutNode::Split { axis, ratio, first, second }
            }
        },
        other => other,
    }
}

/// Removes the first docked occurrence of `panel`. Returns the new tree and
/// whether `panel` was found; the tree is unchanged when it was not.
pub fn detach_panel_from_node(node: LayoutNode, panel: &PanelId) -> (r: (LayoutNode, bool))
    ensures
        r == (r.0, detached(node@, panel@).1),
        r.0@ == detached(node@, panel@).0,
    decreases node,
{
    match node {
        LayoutNode::Split { axis, ratio, first, second } => {
            let (f, removed_first) = detach_panel_from_node(*first, panel);
            if removed_first {
                return (
                    collapse_split(LayoutNode::Split { axis, ratio, first: Box::new(f), second }),
                    true,
                );
            }
            let (t, removed_second) = detach_panel_from_node(*second, panel);
            let rebuilt = LayoutNode::Split { axis, ratio, first: Box::new(f), second: Box::new(t) };
            if removed_second {
                (collapse_split(rebuilt), true)
            } else {
                (rebuilt, false)
            }
        },
        LayoutNode::Tabs { items, active } => {
            let mut items = items;
            let ghost before = panel_texts(items@);
            let removed = take_id(&mut items, panel);
            if !removed {
                proof {
                    lemma_remove_value_absent(before, panel@);
                }
                return (LayoutNode::Tabs { items, active }, false);
            }
            let selected = match active {
                Some(current) => {
                    if current.same_as(panel) {
                        if items.len() > 0 {
                            Some(items[0].clone())
                        } else {
                            None
                        }
                    } else {
                        Some(current)
                    }
                },
                None => None,
            };
            if items.len() == 0 {
                (LayoutNode::Empty, true)
            } else if items.len() == 1 {
                let id = items.remove(0);
                (LayoutNode::Panel { id }, true)
            } else {
                (LayoutNode::Tabs { items, active: selected }, true)
            }
        },
        LayoutNode::Panel { id } => {
            if id.same_as(panel) {
                (LayoutNode::Empty, true)
            } else {
                (LayoutNode::Panel { id }, false)
            }
        },
        other => (other, false),
    }
}

/// The tree after selecting `panel` in the first tab group that holds it, or
/// `None` when `panel` is docked nowhere. A panel that is docked on its own is
/// already selected, so the tree stays the same.
pub open spec fn activated_panel(node: NodeView, panel: Seq<char>) -> Option<NodeView>
    decreases node,
{
    match node {
        NodeView::Split { axis, ratio, first, second } => match activated_panel(*first, panel) {
            Some(f) => Some(NodeView::Split { axis, ratio, first: Box::new(f), second }),
            None => match activated_panel(*second, panel) {
                Some(t) => Some(NodeView::Split { axis, ratio, first, second: Box::new(t) }),
                None => None,
            },
        },
        NodeView::Tabs { items, active } => if items.contains(panel) {
            Some(NodeView::Tabs { items, active: Some(panel) })
        } else {
            None
        },
        NodeView::Panel { id } => if id == panel {
            Some(node)
        } else {
            None
        },
        _ => None,
    }
}

/// Selects `panel` in its tab group. Returns the new tree and whether `panel`
/// is docked; the tree is unchanged when it is not.
pub fn activate_panel_in_node(node: LayoutNode, panel: &PanelId) -> (r: (LayoutNode, bool))
    ensures
        match activated_panel(node@, panel@) {
            Some(n) => r.1 && r.0@ == n,
            None => !r.1 && r.0@ == node@,
        },
    decreases node,
{
    match node {
        LayoutNode::Split { axis, ratio, first, second } => {
            let (f, done) = activate_panel_in_node(*first, panel);
            if done {
                return (LayoutNode::Split { axis, ratio, first: Box::new(f), second }, true);
            }
            let (t, done2) = activate_panel_in_node(*second, panel);
            (LayoutNode::Split { axis, ratio, first: Box::new(f), second: Box::new(t) }, done2)
        },
        LayoutNode::Tabs { items, active } => {
            if contains_panel_id(&items, panel) {
                (LayoutNode::Tabs { items, active: Some(panel.clone()) }, true)
            } else {
                (LayoutNode::Tabs { items, active }, false)
            }
        },
        LayoutNode::Panel { id } => {
            let found = id.same_as(panel);
            (LayoutNode::Panel { id }, found)
        },
        other => (other, false),
    }
}

/// The tree after setting the normalized `ratio` on the innermost split whose
/// branches hold `panel`, or `None` when `panel` is not docked beneath a split.
pub open spec fn resized(node: NodeView, panel: Seq<char>, ratio: u32) -> Option<NodeView>
    decreases node,
{
    match node {
        NodeView::Split { axis, ratio: current, first, second } => if node_contains_panel(
            *first,
            panel,
        ) || node_contains_panel(*second, panel) {
            match resized(*first, panel, ratio) {
                Some(f) => Some(NodeView::Split { axis, ratio: current, first: Box::new(f), second }),
                None => match resized(*second, panel, ratio) {
                    Some(t) => Some(
                        NodeView::Split { axis, ratio: current, first, second: Box::new(t) },
                    ),
                    None => Some(
                        NodeView::Split { axis, ratio: normalized_ratio(ratio), first, second },
                    ),
                },
            }
        } else {
            None
        },
        _ => None,
    }
}

/// Resizes the innermost split that contains `panel`. Returns the new tree and
/// whether such a split exists; the tree is unchanged when it does not.
pub fn resize_split_in_node(node: LayoutNode, panel: &PanelId, ratio: u32) -> (r: (
    LayoutNode,
    bool,
))
    ensures
        match resized(node@, panel@, ratio) {
            Some(n) => r.1 && r.0@ == n,
            None => !r.1 && r.0@ == node@,
        },
    decreases node,
{
    match node {
        LayoutNode::Split { axis, ratio: current, first, second } => {
            if !(contains_panel(&first, panel) || contains_panel(&second, panel)) {
                return (LayoutNode::Split { axis, ratio: current, first, second }, false);
            }
            let (f, done) = resize_split_in_node(*first, panel, ratio);
            if done {
                return (
                    LayoutNode::Split { axis, ratio: current, first: Box::new(f), second },
                    true,
                );
            }
            let (t, done2) = resize_split_in_node(*second, panel, ratio);
            if done2 {
                return (
                    LayoutNode::Split { axis, ratio: current, first: Box::new(f), second: Box::new(t) },
                    true,
                );
            }
            (
                LayoutNode::Split {
                    axis,
                    ratio: normalize_ratio(ratio),
                    first: Box::new(f),
                    second: Box::new(t),
                },
                true,
            )
        },
        other => (other, false),
    }
}

/// The first panel reachable in first-branch-first order, if any.
pub open spec fn leading_panel(node: NodeView) -> Option<Seq<char>>
    decreases node,
{
    match node {
        NodeView::Split { first, second, .. } => match leading_panel(*first) {
            Some(p) => Some(p),
            None => leading_panel(*second),
        },
        NodeView::Tabs { items, .. } => first_text(items),
        NodeView::Panel { id } => Some(id),
        _ => None,
    }
}

/// Returns the first panel reachable in first-branch-first order, if any.
pub fn first_panel(node: &LayoutNode) -> (r: Option<PanelId>)
    ensures
        panel_text_opt(r) == leading_panel(node@),
    decreases node,
{
    match node {
        LayoutNode::Split { first, second, .. } => match first_panel(first) {
            Some(p) => Some(p),
            None => first_panel(second),
        },
        LayoutNode::Tabs { items, .. } => if items.len() > 0 {
            Some(items[0].clone())
        } else {
            None
        },
        LayoutNode::Panel { id } => Some(id.clone()),
        LayoutNode::Documents { .. } => None,
        LayoutNode::Empty => None,
    }
}


/// The tree after removing `document` from the first document area that
/// holds it, or `None` when no area holds it. Removing the selected document
/// selects the first remaining one.
pub open spec fn without_document(node: NodeView, document: Seq<char>) -> Option<NodeView>
    decreases node,
{
    match node {
        NodeView::Split { axis, ratio, first, second } => match without_document(*first, document) {
            Some(f) => Some(NodeView::Split { axis, ratio, first: Box::new(f), second }),
            None => match without_document(*second, document) {
                Some(t) => Some(NodeView::Split { axis, ratio, first, second: Box::new(t) }),
                None => None,
            },
        },
        NodeView::Documents { presentation, items, active } => if items.contains(document) {
            let rest = items.remove_value(document);
            Some(
                NodeView::Documents {
                    presentation,
                    items: rest,
                    active: if active == Some(document) {
                        first_text(rest)
                    } else {
                        active
                    },
                },
            )
        } else {
            None
        },
        _ => None,
    }
}

/// Removes `document` from the document area. Returns the new tree and
/// whether the document was found; the tree is unchanged when it was not.
pub fn detach_document(node: LayoutNode, document: &DocumentId) -> (r: (LayoutNode, bool))
    ensures
        match without_document(node@, document@) {
            Some(n) => r.1 && r.0@ == n,
            None => !r.1 && r.0@ == node@,
        },
    decreases node,
{
    match node {
        LayoutNode::Split { axis, ratio, first, second } => {
            let (f, done) = detach_document(*first, document);
            if done {
                return (LayoutNode::Split { axis, ratio, first: Box::new(f), second }, true);
            }
            let (t, done2) = detach_document(*second, document);
            (LayoutNode::Split { axis, ratio, first: Box::new(f), second: Box::new(t) }, done2)
        },
        LayoutNode::Documents { presentation, items, active } => {
            let mut items = items;
            let ghost before = document_texts(items@);
            let removed = take_document_id(&mut items, document);
            if !removed {
                proof {
                    lemma_remove_value_absent(before, document@);
                }
                return (LayoutNode::Documents { presentation, items, active }, false);
            }
            let selected = match active {
                Some(current) => {
                    if current.same_as(document) {
                        if items.len() > 0 {
                            Some(items[0].clone())
                        } else {
                            None
                        }
                    } else {
                        Some(current)
                    }
                },
                None => None,
            };
            (LayoutNode::Documents { presentation, items, active: selected }, true)
        },
        other => (other, false),
    }
}

/// The tree after appending `document` to the first document area and
/// selecting it, or `None` when the tree has no document area.
pub open spec fn with_document(node: NodeView, document: Seq<char>) -> Option<NodeView>
    decreases node,
{
    match node {
        NodeView::Split { axis, ratio, first, second } => match with_document(*first, document) {
            Some(f) => Some(NodeView::Split { axis, ratio, first: Box::new(f), second }),
            None => match with_document(*second, document) {
                Some(t) => Some(NodeView::Split { axis, ratio, first, second: Box::new(t) }),
                None => None,
            },
        },
        NodeView::Documents { presentation, items, .. } => Some(
            NodeView::Documents { presentation, items: items.push(document), active: Some(document) },
        ),
        _ => None,
    }
}

/// Appends `document` to the document area and selects it. Returns the new
/// tree and whether an area exists; the tree is unchanged when none does.
pub fn insert_document(node: LayoutNode, document: &DocumentId) -> (r: (LayoutNode, bool))
    ensures
        match with_document(node@, document@) {
            Some(n) => r.1 && r.0@ == n,
            None => !r.1 && r.0@ == node@,
        },
    decreases node,
{
    match node {
        LayoutNode::Split { axis, ratio, first, second } => {
            let (f, done) = insert_document(*first, document);
            if done {
                return (LayoutNode::Split { axis, ratio, first: Box::new(f), second }, true);
            }
            let (t, done2) = insert_document(*second, document);
            (LayoutNode::Split { axis, ratio, first: Box::new(f), second: Box::new(t) }, done2)
        },
        LayoutNode::Documents { presentation, items, .. } => {
            let mut items = items;
            let ghost before = items@;
            items.push(document.clone());
            proof {
                lemma_map_push(before, |id: DocumentId| id@, *document);
            }
            (LayoutNode::Documents { presentation, items, active: Some(document.clone()) }, true)
        },
        other => (other, false),
    }
}

/// The tree after selecting `document` in the first document area that holds
/// it, or `None` when no area holds it.
pub open spec fn activated_document(node: NodeView, document: Seq<char>) -> Option<NodeView>
    decreases node,
{
    match node {
        NodeView::Split { axis, ratio, first, second } => match activated_document(
            *first,
            document,
        ) {
            Some(f) => Some(NodeView::Split { axis, ratio, first: Box::new(f), second }),
            None => match activated_document(*second, document) {
                Some(t) => Some(NodeView::Split { axis, ratio, first, second: Box::new(t) }),
                None => None,
            },
        },
        NodeView::Documents { presentation, items, .. } => if items.contains(document) {
            Some(NodeView::Documents { presentation, items, active: Some(document) })
        } else {
            None
        },
        _ => None,
    }
}

/// Selects `document` in its document area. Returns the new tree and whether
/// the document is docked; the tree is unchanged when it is not.
pub fn activate_document_in_node(node: LayoutNode, document: &DocumentId) -> (r: (
    LayoutNode,
    bool,
))
    ensures
        match activated_document(node@, document@) {
            Some(n) => r.1 && r.0@ == n,
            None => !r.1 && r.0@ == node@,
        },
    decreases node,
{
    match node {
        LayoutNode::Split { axis, ratio, first, second } => {
            let (f, done) = activate_document_in_node(*first, document);
            if done {
                return (LayoutNode::Split { axis, ratio, first: Box::new(f), second }, true);
            }
            let (t, done2) = activate_document_in_node(*second, document);
            (LayoutNode::Split { axis, ratio, first: Box::new(f), second: Box::new(t) }, done2)
        },
        LayoutNode::Documents { presentation, items, active } => {
            if contains_document_id(&items, document) {
                (LayoutNode::Documents { presentation, items, active: Some(document.clone()) }, true)
            } else {
                (LayoutNode::Documents { presentation, items, active }, false)
            }
        },
        other => (other, false),
    }
}

/// A selection repaired to refer to a member of `items`: an absent or
/// foreign selection becomes the first item.
pub open spec fn repaired_selection(items: Seq<Seq<char>>, active: Option<Seq<char>>) -> Option<
    Seq<char>,
> {
    match active {
        Some(id) => if items.contains(id) {
            active
        } else {
            first_text(items)
        },
        None => first_text(items),
    }
}

/// The tree with every split ratio normalized and every selection repaired.
pub open spec fn normalized(node: NodeView) -> NodeView
    decreases node,
{
    match node {
        NodeView::Split { axis, ratio, first, second } => NodeView::Split {
            axis,
            ratio: normalized_ratio(ratio),
            first: Box::new(normalized(*first)),
            second: Box::new(normalized(*second)),
        },
        NodeView::Tabs { items, active } => NodeView::Tabs {
            items,
            active: repaired_selection(items, active),
        },
        NodeView::Documents { presentation, items, active } => NodeView::Documents {
            presentation,
            items,
            active: repaired_selection(items, active),
        },
        _ => node,
    }
}

/// Normalizes every split ratio and repairs every selection.
pub fn normalize_node(node: LayoutNode) -> (r: LayoutNode)
    ensures
        r@ == normalized(node@),
    decreases node,
{
    match node {
        LayoutNode::Split { axis, ratio, first, second } => {
            let f = normalize_node(*first);
            let t = normalize_node(*second);
            LayoutNode::Split {
                axis,
                ratio: normalize_ratio(ratio),
                first: Box::new(f),
                second: Box::new(t),
            }
        },
        LayoutNode::Tabs { items, active } => {
            let keep = match &active {
                Some(id) => contains_panel_id(&items, id),
                None => false,
            };
            if keep {
                LayoutNode::Tabs { items, active }
            } else {
                let first = if items.len() > 0 {
                    Some(items[0].clone())
                } else {
                    None
                };
                LayoutNode::Tabs { items, active: first }
            }
        },
        LayoutNode::Documents { presentation, items, active } => {
            let keep = match &active {
                Some(id) => contains_document_id(&items, id),
                None => false,
            };
            if keep {
                LayoutNode::Documents { presentation, items, active }
            } else {
                let first = if items.len() > 0 {
                    Some(items[0].clone())
                } else {
                    None
                };
                LayoutNode::Documents { presentation, items, active: first }
            }
        },
        other => other,
    }
}

} // verus!
