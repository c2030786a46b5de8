//! What workspace validation accepts, stated without reference to the order
//! in which it checks, and what the workspace operations guarantee.

use vstd::prelude::*;

use crate::binary32::{is_normalized_ratio, normalized_ratio};
use crate::binary32::lemma_normalize_ratio_idempotent;
use crate::dock_ids::{DockAxis, SplitPlacement};
use crate::dock_tree::{
    activated_document, activated_panel, collapsed, detached, first_text, normalized, resized, split_at,
    tab_with, with_document, without_document, NodeView,
};
use crate::workspace::{
    activate_document_result, activate_panel_result, admit_ids, admit_windows, bounds_valid,
    check_node, committed, decoded, dock_document_result, document_areas,
    float_document_result, float_panel_result, fresh_layout, hide_panel_result,
    move_to_tabs_result, resize_result, show_panel_result, split_panel_result, validation,
    window_ids, with_root, without_panel, without_window, LayoutView, WindowView, WorkspaceErrorView,
    WORKSPACE_LAYOUT_VERSION,
};

verus! {

/// The panels docked in `node`, in depth-first, first-branch-first order.
pub open spec fn node_panels(node: NodeView) -> Seq<Seq<char>>
    decreases node,
{
    match node {
        NodeView::Split { first, second, .. } => node_panels(*first) + node_panels(*second),
        NodeView::Tabs { items, .. } => items,
        NodeView::Panel { id } => seq![id],
        _ => Seq::empty(),
    }
}

/// The documents docked in `node`, in depth-first, first-branch-first order.
pub open spec fn node_documents(node: NodeView) -> Seq<Seq<char>>
    decreases node,
{
    match node {
        NodeView::Split { first, second, .. } => node_documents(*first) + node_documents(*second),
        NodeView::Documents { items, .. } => items,
        _ => Seq::empty(),
    }
}

/// Every split ratio of `node` is normalized and every selection names one of
/// its group's items.
pub open spec fn node_well_formed(node: NodeView) -> bool
    decreases node,
{
    match node {
        NodeView::Split { ratio, first, second, .. } => is_normalized_ratio(ratio)
            && node_well_formed(*first) && node_well_formed(*second),
        NodeView::Tabs { items, active } => active is Some ==> items.contains(active->0),
        NodeView::Documents { items, active, .. } => active is Some ==> items.contains(active->0),
        _ => true,
    }
}

/// Every panel location of a layout: docked, floating, then hidden.
pub open spec fn all_panels(l: LayoutView) -> Seq<Seq<char>> {
    node_panels(l.root) + window_ids(l.floating) + l.hidden
}

/// Every document location of a layout: docked, then free-form.
pub open spec fn all_documents(l: LayoutView) -> Seq<Seq<char>> {
    node_documents(l.root) + window_ids(l.freeform)
}

/// Every window has valid bounds.
pub open spec fn windows_bounded(items: Seq<WindowView>) -> bool {
    forall|i: int| 0 <= i < items.len() ==> bounds_valid(#[trigger] items[i].bounds)
}

/// The workspace invariant: each panel and each document occurs at most once
/// across all locations, there is at most one document area, every split
/// ratio is normalized, every selection names a member of its group, and all
/// floating bounds are valid.
pub open spec fn well_formed(l: LayoutView) -> bool {
    &&& node_well_formed(l.root)
    &&& document_areas(l.root) <= 1
    &&& all_panels(l).no_duplicates()
    &&& all_documents(l).no_duplicates()
    &&& windows_bounded(l.floating)
    &&& windows_bounded(l.freeform)
}

proof fn lemma_no_duplicates_prefix(a: Seq<Seq<char>>, b: Seq<Seq<char>>)
    requires
        (a + b).no_duplicates(),
    ensures
        a.no_duplicates(),
{
    assert forall|i: int, j: int| 0 <= i < a.len() && 0 <= j < a.len() && i != j implies a[i]
        != a[j] by {
        assert((a + b)[i] == a[i] && (a + b)[j] == a[j]);
    }
}

proof fn lemma_no_duplicates_push(a: Seq<Seq<char>>, x: Seq<char>)
    ensures
        a.push(x).no_duplicates() <==> (a.no_duplicates() && !a.contains(x)),
{
    if a.push(x).no_duplicates() {
        assert forall|i: int, j: int| 0 <= i < a.len() && 0 <= j < a.len() && i != j implies a[i]
            != a[j] by {
            assert(a.push(x)[i] == a[i] && a.push(x)[j] == a[j]);
        }
        if a.contains(x) {
            let k = choose|k: int| 0 <= k < a.len() && a[k] == x;
            assert(a.push(x)[k] == a.push(x)[a.len() as int]);
        }
    }
    if a.no_duplicates() && !a.contains(x) {
        assert forall|i: int, j: int|
            0 <= i < a.push(x).len() && 0 <= j < a.push(x).len() && i != j implies a.push(x)[i]
            != a.push(x)[j] by {
            if i == a.len() {
                assert(a.push(x)[j] == a[j]);
            } else if j == a.len() {
                assert(a.push(x)[i] == a[i]);
            }
        }
    }
}

/// Admitting identifiers succeeds exactly when no identifier repeats, and then
/// yields the concatenation.
pub proof fn lemma_admit_ids(ids: Seq<Seq<char>>, seen: Seq<Seq<char>>)
    requires
        seen.no_duplicates(),
    ensures
        admit_ids(ids, seen) is Ok <==> (seen + ids).no_duplicates(),
        admit_ids(ids, seen) is Ok ==> admit_ids(ids, seen) == Ok::<Seq<Seq<char>>, Seq<char>>(
            seen + ids,
        ),
    decreases ids.len(),
{
    if ids.len() == 0 {
        assert(seen + ids =~= seen);
    } else {
        let rest = ids.drop_first();
        assert(seen.push(ids[0]) + rest =~= seen + ids);
        lemma_no_duplicates_push(seen, ids[0]);
        if seen.contains(ids[0]) {
            if (seen + ids).no_duplicates() {
                lemma_no_duplicates_prefix(seen.push(ids[0]), rest);
            }
        } else {
            lemma_admit_ids(rest, seen.push(ids[0]));
        }
    }
}

/// Admitting windows succeeds exactly when all bounds are valid and no
/// identifier repeats, and then yields the concatenation of identifiers.
pub proof fn lemma_admit_windows(items: Seq<WindowView>, seen: Seq<Seq<char>>, documents: bool)
    requires
        seen.no_duplicates(),
    ensures
        admit_windows(items, seen, documents) is Ok <==> (windows_bounded(items) && (seen
            + window_ids(items)).no_duplicates()),
        admit_windows(items, seen, documents) is Ok ==> admit_windows(items, seen, documents)
            == Ok::<Seq<Seq<char>>, crate::workspace::WorkspaceErrorView>(
            seen + window_ids(items),
        ),
    decreases items.len(),
{
    if items.len() == 0 {
        assert(window_ids(items) =~= Seq::<Seq<char>>::empty());
        assert(seen + window_ids(items) =~= seen);
    } else {
        let rest = items.drop_first();
        assert(window_ids(items) =~= seq![items[0].id] + window_ids(rest));
        assert(seen.push(items[0].id) + window_ids(rest) =~= seen + window_ids(items));
        lemma_no_duplicates_push(seen, items[0].id);
        if !bounds_valid(items[0].bounds) {
        } else if seen.contains(items[0].id) {
            if (seen + window_ids(items)).no_duplicates() {
                lemma_no_duplicates_prefix(seen.push(items[0].id), window_ids(rest));
            }
        } else {
            lemma_admit_windows(rest, seen.push(items[0].id), documents);
            assert(windows_bounded(items) <==> windows_bounded(rest)) by {
                if windows_bounded(rest) {
                    assert forall|i: int| 0 <= i < items.len() implies bounds_valid(
                        #[trigger] items[i].bounds,
                    ) by {
                        if i > 0 {
                            assert(items[i] == rest[i - 1]);
                        }
                    }
                }
                if windows_bounded(items) {
                    assert forall|i: int| 0 <= i < rest.len() implies bounds_valid(
                        #[trigger] rest[i].bounds,
                    ) by {
                        assert(items[i + 1] == rest[i]);
                    }
                }
            }
        }
    }
}

/// Checking a tree succeeds exactly when the tree is well formed and its
/// identifiers do not repeat each other or those seen before, and then yields
/// the identifiers seen before followed by those of the tree.
pub proof fn lemma_check_node(node: NodeView, panels: Seq<Seq<char>>, documents: Seq<Seq<char>>)
    requires
        panels.no_duplicates(),
        documents.no_duplicates(),
    ensures
        check_node(node, panels, documents) is Ok <==> (node_well_formed(node) && (panels
            + node_panels(node)).no_duplicates() && (documents
            + node_documents(node)).no_duplicates()),
        check_node(node, panels, documents) is Ok ==> check_node(node, panels, documents) == Ok::<
            (Seq<Seq<char>>, Seq<Seq<char>>),
            crate::workspace::WorkspaceErrorView,
        >((panels + node_panels(node), documents + node_documents(node))),
    decreases node,
{
    match node {
        NodeView::Split { ratio, first, second, .. } => {
            lemma_check_node(*first, panels, documents);
            assert(panels + node_panels(node) =~= (panels + node_panels(*first)) + node_panels(
                *second,
            ));
            assert(documents + node_documents(node) =~= (documents + node_documents(*first))
                + node_documents(*second));
            if (panels + node_panels(node)).no_duplicates() {
                lemma_no_duplicates_prefix(panels + node_panels(*first), node_panels(*second));
            }
            if (documents + node_documents(node)).no_duplicates() {
                lemma_no_duplicates_prefix(
                    documents + node_documents(*first),
                    node_documents(*second),
                );
            }
            if check_node(*first, panels, documents) is Ok {
                lemma_check_node(
                    *second,
                    panels + node_panels(*first),
                    documents + node_documents(*first),
                );
            }
        },
        NodeView::Tabs { items, active } => {
            lemma_admit_ids(items, panels);
            assert(documents + node_documents(node) =~= documents);
        },
        NodeView::Panel { id } => {
            assert(panels + node_panels(node) =~= panels.push(id));
            assert(documents + node_documents(node) =~= documents);
            lemma_no_duplicates_push(panels, id);
        },
        NodeView::Documents { items, active, .. } => {
            lemma_admit_ids(items, documents);
            assert(panels + node_panels(node) =~= panels);
        },
        NodeView::Empty => {
            assert(panels + node_panels(node) =~= panels);
            assert(documents + node_documents(node) =~= documents);
        },
    }
}

/// Validation accepts exactly the well-formed layouts.
pub proof fn law_validation_accepts_exactly_well_formed_layouts(l: LayoutView)
    ensures
        validation(l) is Ok <==> well_formed(l),
{
    let empty = Seq::<Seq<char>>::empty();
    assert(empty.no_duplicates());
    lemma_check_node(l.root, empty, empty);
    assert(empty + node_panels(l.root) =~= node_panels(l.root));
    assert(empty + node_documents(l.root) =~= node_documents(l.root));
    if check_node(l.root, empty, empty) is Ok && document_areas(l.root) <= 1 {
        let docked = node_panels(l.root);
        lemma_admit_windows(l.floating, docked, false);
        if admit_windows(l.floating, docked, false) is Ok {
            lemma_admit_ids(l.hidden, docked + window_ids(l.floating));
            let docs = node_documents(l.root);
            lemma_admit_windows(l.freeform, docs, true);
        } else {
            if all_panels(l).no_duplicates() {
                lemma_no_duplicates_prefix(docked + window_ids(l.floating), l.hidden);
            }
        }
    } else if check_node(l.root, empty, empty) is Ok {
    } else {
        if all_panels(l).no_duplicates() {
            assert(all_panels(l) =~= node_panels(l.root) + (window_ids(l.floating) + l.hidden));
            lemma_no_duplicates_prefix(node_panels(l.root), window_ids(l.floating) + l.hidden);
        }
        if all_documents(l).no_duplicates() {
            lemma_no_duplicates_prefix(node_documents(l.root), window_ids(l.freeform));
        }
    }
}


/// A layout accepted by commitment is well formed.
proof fn lemma_committed_well_formed(candidate: LayoutView)
    ensures
        committed(candidate) matches Ok(n) ==> well_formed(n),
{
    law_validation_accepts_exactly_well_formed_layouts(candidate);
}

/// Every operation that succeeds leaves a well-formed workspace: each panel and
/// document occurs at most once, there is at most one document area, ratios
/// are normalized, selections name members of their groups, and floating
/// bounds are valid. This holds whatever the layout was before.
pub proof fn law_successful_operations_leave_a_well_formed_workspace(
    l: LayoutView,
    root: NodeView,
    target: Seq<char>,
    panel: Seq<char>,
    document: Seq<char>,
    axis: DockAxis,
    ratio: u32,
    placement: SplitPlacement,
    bounds: (u32, u32, u32, u32),
)
    ensures
        committed(fresh_layout(root)) matches Ok(n) ==> well_formed(n),
        decoded(l) matches Ok(n) ==> well_formed(n),
        split_panel_result(l, target, panel, axis, ratio, placement) matches Ok(n) ==> well_formed(
            n,
        ),
        move_to_tabs_result(l, target, panel) matches Ok(n) ==> well_formed(n),
        float_panel_result(l, panel, bounds) matches Ok(n) ==> well_formed(n),
        hide_panel_result(l, panel) matches Ok(n) ==> well_formed(n),
        show_panel_result(l, panel, target) matches Ok(n) ==> well_formed(n),
        activate_panel_result(l, panel) matches Ok(n) ==> well_formed(n),
        resize_result(l, panel, ratio) matches Ok(n) ==> well_formed(n),
        float_document_result(l, document, bounds) matches Ok(n) ==> well_formed(n),
        dock_document_result(l, document) matches Ok(n) ==> well_formed(n),
        activate_document_result(l, document) matches Ok(n) ==> well_formed(n),
{
    let removed = crate::workspace::without_panel(l, panel).0;
    lemma_committed_well_formed(fresh_layout(root));
    lemma_committed_well_formed(with_root(l, normalized(l.root)));
    match crate::dock_tree::split_at(removed.root, target, panel, axis, ratio, placement) {
        Some(r) => lemma_committed_well_formed(with_root(removed, r)),
        None => {},
    }
    match crate::dock_tree::tab_with(removed.root, target, panel) {
        Some(r) => lemma_committed_well_formed(with_root(removed, r)),
        None => {},
    }
    lemma_committed_well_formed(
        LayoutView {
            floating: removed.floating.push(
                crate::workspace::new_window(removed.floating, panel, bounds),
            ),
            ..removed
        },
    );
    lemma_committed_well_formed(LayoutView { hidden: removed.hidden.push(panel), ..removed });
    let shown = LayoutView { hidden: l.hidden.remove_value(panel), ..l };
    match crate::dock_tree::tab_with(shown.root, target, panel) {
        Some(r) => lemma_committed_well_formed(with_root(shown, r)),
        None => {},
    }
    match crate::dock_tree::activated_panel(l.root, panel) {
        Some(r) => lemma_committed_well_formed(with_root(l, r)),
        None => {},
    }
    match crate::dock_tree::resized(l.root, panel, ratio) {
        Some(r) => lemma_committed_well_formed(with_root(l, r)),
        None => {},
    }
    match crate::dock_tree::without_document(l.root, document) {
        Some(r) => lemma_committed_well_formed(
            LayoutView {
                root: r,
                freeform: l.freeform.push(crate::workspace::new_window(l.freeform, document, bounds)),
                ..l
            },
        ),
        None => {},
    }
    let docked = LayoutView {
        freeform: crate::workspace::without_window(l.freeform, document),
        ..l
    };
    match crate::dock_tree::with_document(docked.root, document) {
        Some(r) => lemma_committed_well_formed(with_root(docked, r)),
        None => {},
    }
    match crate::dock_tree::activated_document(l.root, document) {
        Some(r) => lemma_committed_well_formed(with_root(l, r)),
        None => match window_ids(l.freeform).index_of_first(document) {
            Some(i) => lemma_committed_well_formed(
                LayoutView {
                    freeform: l.freeform.update(
                        i,
                        crate::workspace::raised(
                            l.freeform[i],
                            crate::workspace::next_z(crate::workspace::window_z_orders(l.freeform)),
                        ),
                    ),
                    ..l
                },
            ),
            None => {},
        },
    }
}

/// Every non-empty tab group and document area has a selection.
pub open spec fn selections_complete(node: NodeView) -> bool
    decreases node,
{
    match node {
        NodeView::Split { first, second, .. } => selections_complete(*first) && selections_complete(
            *second,
        ),
        NodeView::Tabs { items, active } => items.len() > 0 ==> active is Some,
        NodeView::Documents { items, active, .. } => items.len() > 0 ==> active is Some,
        _ => true,
    }
}

/// Normalization changes nothing in a well-formed tree whose non-empty groups
/// all have a selection, and normalizing twice is the same as normalizing once.
pub proof fn law_normalization_is_idempotent(node: NodeView)
    ensures
        node_well_formed(node) && selections_complete(node) ==> normalized(node) == node,
        normalized(normalized(node)) == normalized(node),
        node_well_formed(normalized(node)),
        selections_complete(normalized(node)),
    decreases node,
{
    match node {
        NodeView::Split { ratio, first, second, .. } => {
            law_normalization_is_idempotent(*first);
            law_normalization_is_idempotent(*second);
            lemma_normalize_ratio_idempotent(ratio);
        },
        _ => {},
    }
}

/// Decoding a stored copy of a current, well-formed layout whose non-empty
/// groups all have a selection gives back that same layout; this is what a
/// save followed by a restore relies on.
pub proof fn law_decoding_a_saved_layout_gives_it_back(l: LayoutView)
    requires
        l.version == WORKSPACE_LAYOUT_VERSION,
        well_formed(l),
        selections_complete(l.root),
    ensures
        decoded(l) == Ok::<LayoutView, crate::workspace::WorkspaceErrorView>(l),
{
    law_normalization_is_idempotent(l.root);
    assert(with_root(l, normalized(l.root)) =~= l);
    law_validation_accepts_exactly_well_formed_layouts(l);
}


/// Whether `a` holds exactly the identifiers of `b`.
pub open spec fn same_members(a: Seq<Seq<char>>, b: Seq<Seq<char>>) -> bool {
    forall|x: Seq<char>| #[trigger] a.contains(x) <==> b.contains(x)
}

/// Whether `a` holds exactly the identifiers of `b` and `extra`.
pub open spec fn members_with(a: Seq<Seq<char>>, b: Seq<Seq<char>>, extra: Seq<char>) -> bool {
    forall|x: Seq<char>| #[trigger] a.contains(x) <==> (b.contains(x) || x == extra)
}

proof fn lemma_concat_contains(a: Seq<Seq<char>>, b: Seq<Seq<char>>)
    ensures
        forall|x: Seq<char>| #[trigger] (a + b).contains(x) <==> (a.contains(x) || b.contains(x)),
{
    assert forall|x: Seq<char>| #[trigger] (a + b).contains(x) <==> (a.contains(x) || b.contains(
        x,
    )) by {
        if (a + b).contains(x) {
            let k = choose|k: int| 0 <= k < (a + b).len() && (a + b)[k] == x;
            if k < a.len() {
                assert(a[k] == x);
            } else {
                assert(b[k - a.len()] == x);
            }
        }
        if a.contains(x) {
            let k = choose|k: int| 0 <= k < a.len() && a[k] == x;
            assert((a + b)[k] == x);
        }
        if b.contains(x) {
            let k = choose|k: int| 0 <= k < b.len() && b[k] == x;
            assert((a + b)[a.len() + k] == x);
        }
    }
}

proof fn lemma_push_contains(a: Seq<Seq<char>>, y: Seq<char>)
    ensures
        forall|x: Seq<char>| #[trigger] a.push(y).contains(x) <==> (a.contains(x) || x == y),
{
    assert forall|x: Seq<char>| #[trigger] a.push(y).contains(x) <==> (a.contains(x) || x == y) by {
        if a.push(y).contains(x) {
            let k = choose|k: int| 0 <= k < a.push(y).len() && a.push(y)[k] == x;
            if k < a.len() {
                assert(a[k] == x);
            }
        }
        if a.contains(x) {
            let k = choose|k: int| 0 <= k < a.len() && a[k] == x;
            assert(a.push(y)[k] == x);
        }
        if x == y {
            assert(a.push(y)[a.len() as int] == x);
        }
    }
}

proof fn lemma_remove_contains<A>(s: Seq<A>, i: int)
    requires
        0 <= i < s.len(),
    ensures
        forall|x: A| #[trigger] s.remove(i).contains(x) ==> s.contains(x),
        forall|x: A| s.contains(x) && x != s[i] ==> #[trigger] s.remove(i).contains(x),
{
    assert forall|x: A| #[trigger] s.remove(i).contains(x) implies s.contains(x) by {
        let k = choose|k: int| 0 <= k < s.remove(i).len() && s.remove(i)[k] == x;
        if k < i {
            assert(s[k] == x);
        } else {
            assert(s[k + 1] == x);
        }
    }
    assert forall|x: A| s.contains(x) && x != s[i] implies #[trigger] s.remove(i).contains(x) by {
        let k = choose|k: int| 0 <= k < s.len() && s[k] == x;
        if k < i {
            assert(s.remove(i)[k] == x);
        } else {
            assert(k != i);
            assert(s.remove(i)[k - 1] == x);
        }
    }
}

proof fn lemma_remove_value_contains(s: Seq<Seq<char>>, v: Seq<char>)
    ensures
        forall|x: Seq<char>| x != v ==> (#[trigger] s.remove_value(v).contains(x) <==> s.contains(x)),
        s.remove_value(v).contains(v) ==> s.contains(v),
{
    s.index_of_first_ensures(v);
    match s.index_of_first(v) {
        Some(i) => {
            lemma_remove_contains(s, i);
        },
        None => {},
    }
}

proof fn lemma_without_window_ids(items: Seq<WindowView>, id: Seq<char>)
    ensures
        window_ids(without_window(items, id)) == window_ids(items).remove_value(id),
{
    match window_ids(items).index_of_first(id) {
        Some(i) => {
            window_ids(items).index_of_first_ensures(id);
            assert(window_ids(items.remove(i)) =~= window_ids(items).remove(i));
        },
        None => {},
    }
}

proof fn lemma_window_ids_push(items: Seq<WindowView>, w: WindowView)
    ensures
        window_ids(items.push(w)) == window_ids(items).push(w.id),
{
    assert(window_ids(items.push(w)) =~= window_ids(items).push(w.id));
}

proof fn lemma_collapsed_keeps_members(node: NodeView)
    ensures
        node_panels(collapsed(node)) == node_panels(node),
        node_documents(collapsed(node)) == node_documents(node),
{
    match node {
        NodeView::Split { first, second, .. } => {
            assert(node_panels(node) =~= node_panels(*first) + node_panels(*second));
            assert(node_documents(node) =~= node_documents(*first) + node_documents(*second));
            if *first is Empty {
                assert(node_documents(*first) =~= Seq::<Seq<char>>::empty());
                assert(node_panels(*first) =~= Seq::<Seq<char>>::empty());
                assert(node_panels(node) =~= node_panels(*second));
                assert(node_documents(node) =~= node_documents(*second));
            } else if *second is Empty {
                assert(node_documents(*second) =~= Seq::<Seq<char>>::empty());
                assert(node_panels(*second) =~= Seq::<Seq<char>>::empty());
                assert(node_panels(node) =~= node_panels(*first));
                assert(node_documents(node) =~= node_documents(*first));
            }
        },
        _ => {},
    }
}

proof fn lemma_detached_members(node: NodeView, p: Seq<char>)
    ensures
        forall|x: Seq<char>|
            x != p ==> (#[trigger] node_panels(detached(node, p).0).contains(x) <==> node_panels(
                node,
            ).contains(x)),
        node_panels(detached(node, p).0).contains(p) ==> node_panels(node).contains(p),
        detached(node, p).1 ==> node_panels(node).contains(p),
        node_documents(detached(node, p).0) == node_documents(node),
    decreases node,
{
    match node {
        NodeView::Split { axis, ratio, first, second } => {
            lemma_detached_members(*first, p);
            lemma_detached_members(*second, p);
            let (f, rf) = detached(*first, p);
            let (t, rt) = detached(*second, p);
            lemma_concat_contains(node_panels(*first), node_panels(*second));
            assert(node_panels(node) =~= node_panels(*first) + node_panels(*second));
            assert(node_documents(node) =~= node_documents(*first) + node_documents(*second));
            if rf {
                let sp = NodeView::Split { axis, ratio, first: Box::new(f), second };
                lemma_collapsed_keeps_members(sp);
                lemma_concat_contains(node_panels(f), node_panels(*second));
                assert(node_panels(sp) =~= node_panels(f) + node_panels(*second));
                assert(node_documents(sp) =~= node_documents(f) + node_documents(*second));
            } else if rt {
                let sp = NodeView::Split { axis, ratio, first, second: Box::new(t) };
                lemma_collapsed_keeps_members(sp);
                lemma_concat_contains(node_panels(*first), node_panels(t));
                assert(node_panels(sp) =~= node_panels(*first) + node_panels(t));
                assert(node_documents(sp) =~= node_documents(*first) + node_documents(t));
            }
            let res = detached(node, p).0;
            assert forall|x: Seq<char>| x != p implies (#[trigger] node_panels(res).contains(x)
                <==> node_panels(node).contains(x)) by {
                assert(node_panels(f).contains(x) <==> node_panels(*first).contains(x));
                assert(node_panels(t).contains(x) <==> node_panels(*second).contains(x));
                if rf {
                    assert(node_panels(res) == node_panels(f) + node_panels(*second));
                } else if rt {
                    assert(node_panels(res) == node_panels(*first) + node_panels(t));
                }
            }
            if node_panels(res).contains(p) {
                if rf {
                    assert(node_panels(res) == node_panels(f) + node_panels(*second));
                } else if rt {
                    assert(node_panels(res) == node_panels(*first) + node_panels(t));
                }
            }
        },
        NodeView::Tabs { items, active } => {
            lemma_remove_value_contains(items, p);
            if items.contains(p) {
                let rest = items.remove_value(p);
                let res = detached(node, p).0;
                if rest.len() == 0 {
                    assert(node_panels(res) =~= rest);
                } else if rest.len() == 1 {
                    assert(node_panels(res) =~= rest);
                } else {
                    assert(node_panels(res) =~= rest);
                }
            }
        },
        NodeView::Panel { id } => {
            assert(node_panels(node) =~= seq![id]);
            assert forall|x: Seq<char>| #[trigger] seq![id].contains(x) <==> x == id by {
                if x == id {
                    assert(seq![id][0] == x);
                }
            }
        },
        _ => {},
    }
}

proof fn lemma_tab_with_members(node: NodeView, target: Seq<char>, p: Seq<char>)
    ensures
        tab_with(node, target, p) matches Some(r) ==> members_with(
            node_panels(r),
            node_panels(node),
            p,
        ) && node_documents(r) == node_documents(node),
    decreases node,
{
    match node {
        NodeView::Split { axis, ratio, first, second } => {
            lemma_tab_with_members(*first, target, p);
            lemma_tab_with_members(*second, target, p);
            lemma_concat_contains(node_panels(*first), node_panels(*second));
            match tab_with(*first, target, p) {
                Some(f) => {
                    lemma_concat_contains(node_panels(f), node_panels(*second));
                },
                None => match tab_with(*second, target, p) {
                    Some(t) => {
                        lemma_concat_contains(node_panels(*first), node_panels(t));
                    },
                    None => {},
                },
            }
        },
        NodeView::Tabs { items, active } => {
            lemma_push_contains(items, p);
        },
        NodeView::Panel { id } => {
            lemma_push_contains(seq![id], p);
            assert(seq![id, p] =~= seq![id].push(p));
            assert forall|x: Seq<char>| #[trigger] seq![id].contains(x) <==> x == id by {
                if x == id {
                    assert(seq![id][0] == x);
                }
            }
        },
        _ => {},
    }
}

proof fn lemma_split_at_members(
    node: NodeView,
    target: Seq<char>,
    p: Seq<char>,
    axis: DockAxis,
    ratio: u32,
    placement: SplitPlacement,
)
    ensures
        split_at(node, target, p, axis, ratio, placement) matches Some(r) ==> members_with(
            node_panels(r),
            node_panels(node),
            p,
        ) && node_documents(r) == node_documents(node),
    decreases node,
{
    match node {
        NodeView::Split { axis: a, ratio: q, first, second } => {
            lemma_split_at_members(*first, target, p, axis, ratio, placement);
            lemma_split_at_members(*second, target, p, axis, ratio, placement);
            lemma_concat_contains(node_panels(*first), node_panels(*second));
            match split_at(*first, target, p, axis, ratio, placement) {
                Some(f) => {
                    lemma_concat_contains(node_panels(f), node_panels(*second));
                },
                None => match split_at(*second, target, p, axis, ratio, placement) {
                    Some(t) => {
                        lemma_concat_contains(node_panels(*first), node_panels(t));
                    },
                    None => {},
                },
            }
        },
        NodeView::Panel { .. } | NodeView::Tabs { .. } => {
            let moved = NodeView::Panel { id: p };
            assert(node_panels(moved) =~= seq![p]);
            assert forall|x: Seq<char>| #[trigger] seq![p].contains(x) <==> x == p by {
                if x == p {
                    assert(seq![p][0] == x);
                }
            }
            lemma_concat_contains(seq![p], node_panels(node));
            lemma_concat_contains(node_panels(node), seq![p]);
            assert(node_documents(moved) =~= Seq::<Seq<char>>::empty());
            assert(Seq::<Seq<char>>::empty() + node_documents(node) =~= node_documents(node));
            assert(node_documents(node) + Seq::<Seq<char>>::empty() =~= node_documents(node));
        },
        _ => {},
    }
}

proof fn lemma_selection_keeps_members(node: NodeView, p: Seq<char>, ratio: u32, d: Seq<char>)
    ensures
        activated_panel(node, p) matches Some(r) ==> node_panels(r) == node_panels(node)
            && node_documents(r) == node_documents(node),
        resized(node, p, ratio) matches Some(r) ==> node_panels(r) == node_panels(node)
            && node_documents(r) == node_documents(node),
        activated_document(node, d) matches Some(r) ==> node_panels(r) == node_panels(node)
            && node_documents(r) == node_documents(node),
    decreases node,
{
    match node {
        NodeView::Split { first, second, .. } => {
            lemma_selection_keeps_members(*first, p, ratio, d);
            lemma_selection_keeps_members(*second, p, ratio, d);
        },
        _ => {},
    }
}

proof fn lemma_document_moves(node: NodeView, d: Seq<char>)
    ensures
        without_document(node, d) matches Some(r) ==> {
            &&& node_panels(r) == node_panels(node)
            &&& node_documents(node).contains(d)
            &&& forall|x: Seq<char>|
                x != d ==> (#[trigger] node_documents(r).contains(x) <==> node_documents(
                    node,
                ).contains(x))
        },
        with_document(node, d) matches Some(r) ==> node_panels(r) == node_panels(node)
            && members_with(node_documents(r), node_documents(node), d),
    decreases node,
{
    match node {
        NodeView::Split { first, second, .. } => {
            lemma_document_moves(*first, d);
            lemma_document_moves(*second, d);
            lemma_concat_contains(node_documents(*first), node_documents(*second));
            match without_document(*first, d) {
                Some(f) => {
                    lemma_concat_contains(node_documents(f), node_documents(*second));
                },
                None => match without_document(*second, d) {
                    Some(t) => {
                        lemma_concat_contains(node_documents(*first), node_documents(t));
                    },
                    None => {},
                },
            }
            match with_document(*first, d) {
                Some(f) => {
                    lemma_concat_contains(node_documents(f), node_documents(*second));
                },
                None => match with_document(*second, d) {
                    Some(t) => {
                        lemma_concat_contains(node_documents(*first), node_documents(t));
                    },
                    None => {},
                },
            }
        },
        NodeView::Documents { items, .. } => {
            lemma_remove_value_contains(items, d);
            lemma_push_contains(items, d);
        },
        _ => {},
    }
}

proof fn lemma_all_members(l: LayoutView)
    ensures
        forall|x: Seq<char>| #[trigger] all_panels(l).contains(x) <==> (node_panels(l.root).contains(
            x,
        ) || window_ids(l.floating).contains(x) || l.hidden.contains(x)),
        forall|x: Seq<char>| #[trigger] all_documents(l).contains(x) <==> (node_documents(
            l.root,
        ).contains(x) || window_ids(l.freeform).contains(x)),
{
    lemma_concat_contains(node_panels(l.root), window_ids(l.floating));
    lemma_concat_contains(node_panels(l.root) + window_ids(l.floating), l.hidden);
    lemma_concat_contains(node_documents(l.root), window_ids(l.freeform));
}

proof fn lemma_without_panel_members(l: LayoutView, p: Seq<char>)
    ensures
        forall|x: Seq<char>|
            x != p ==> (#[trigger] all_panels(without_panel(l, p).0).contains(x) <==> all_panels(
                l,
            ).contains(x)),
        all_documents(without_panel(l, p).0) == all_documents(l),
{
    let c = without_panel(l, p).0;
    lemma_all_members(l);
    lemma_all_members(c);
    lemma_detached_members(l.root, p);
    lemma_without_window_ids(l.floating, p);
    lemma_remove_value_contains(window_ids(l.floating), p);
    lemma_remove_value_contains(l.hidden, p);
}

proof fn lemma_members_with_same(a: Seq<Seq<char>>, b: Seq<Seq<char>>, p: Seq<char>)
    requires
        members_with(a, b, p),
        b.contains(p),
    ensures
        same_members(a, b),
{
    assert forall|x: Seq<char>| #[trigger] a.contains(x) <==> b.contains(x) by {
        assert(a.contains(x) <==> (b.contains(x) || x == p));
    }
}

proof fn lemma_members_chain(a: Seq<Seq<char>>, b: Seq<Seq<char>>, c: Seq<Seq<char>>, p: Seq<char>)
    requires
        members_with(a, b, p),
        forall|x: Seq<char>| x != p ==> (#[trigger] b.contains(x) <==> c.contains(x)),
    ensures
        members_with(a, c, p),
{
    assert forall|x: Seq<char>| #[trigger] a.contains(x) <==> (c.contains(x) || x == p) by {
        assert(a.contains(x) <==> (b.contains(x) || x == p));
        if x != p {
            assert(b.contains(x) <==> c.contains(x));
        }
    }
}

proof fn lemma_members_after_root(l: LayoutView, r: NodeView, p: Seq<char>)
    requires
        members_with(node_panels(r), node_panels(l.root), p),
        node_documents(r) == node_documents(l.root),
    ensures
        members_with(all_panels(with_root(l, r)), all_panels(l), p),
        all_documents(with_root(l, r)) == all_documents(l),
{
    lemma_all_members(l);
    lemma_all_members(with_root(l, r));
    assert forall|x: Seq<char>| #[trigger] all_panels(with_root(l, r)).contains(x) <==> (all_panels(
        l,
    ).contains(x) || x == p) by {
        assert(node_panels(r).contains(x) <==> (node_panels(l.root).contains(x) || x == p));
    }
}

/// Panels and documents are never lost or invented. Splitting, tabbing,
/// floating, hiding and showing `panel` leave every other panel where it is
/// counted and place `panel`; activating and resizing keep the panels; no
/// panel operation touches a document; moving and activating documents keep
/// both the documents and the panels.
pub proof fn law_operations_keep_every_identifier(
    l: LayoutView,
    target: Seq<char>,
    panel: Seq<char>,
    document: Seq<char>,
    axis: DockAxis,
    ratio: u32,
    placement: SplitPlacement,
    bounds: (u32, u32, u32, u32),
)
    ensures
        split_panel_result(l, target, panel, axis, ratio, placement) matches Ok(n) ==> members_with(
            all_panels(n),
            all_panels(l),
            panel,
        ) && all_documents(n) == all_documents(l),
        move_to_tabs_result(l, target, panel) matches Ok(n) ==> members_with(
            all_panels(n),
            all_panels(l),
            panel,
        ) && all_documents(n) == all_documents(l),
        float_panel_result(l, panel, bounds) matches Ok(n) ==> same_members(
            all_panels(n),
            all_panels(l),
        ) && all_documents(n) == all_documents(l),
        hide_panel_result(l, panel) matches Ok(n) ==> same_members(all_panels(n), all_panels(l))
            && all_documents(n) == all_documents(l),
        show_panel_result(l, panel, target) matches Ok(n) ==> same_members(
            all_panels(n),
            all_panels(l),
        ) && all_documents(n) == all_documents(l),
        activate_panel_result(l, panel) matches Ok(n) ==> all_panels(n) == all_panels(l)
            && all_documents(n) == all_documents(l),
        resize_result(l, panel, ratio) matches Ok(n) ==> all_panels(n) == all_panels(l)
            && all_documents(n) == all_documents(l),
        float_document_result(l, document, bounds) matches Ok(n) ==> all_panels(n) == all_panels(
            l,
        ) && same_members(all_documents(n), all_documents(l)),
        dock_document_result(l, document) matches Ok(n) ==> all_panels(n) == all_panels(l)
            && same_members(all_documents(n), all_documents(l)),
        activate_document_result(l, document) matches Ok(n) ==> all_panels(n) == all_panels(l)
            && all_documents(n) == all_documents(l),
{
    let c = without_panel(l, panel).0;
    lemma_without_panel_members(l, panel);
    lemma_all_members(l);
    lemma_all_members(c);
    lemma_detached_members(l.root, panel);
    lemma_selection_keeps_members(l.root, panel, ratio, document);
    lemma_document_moves(l.root, document);
    if without_panel(l, panel).1 {
        assert(all_panels(l).contains(panel));
    }
    if target != panel {
        lemma_split_at_members(c.root, target, panel, axis, ratio, placement);
        match split_at(c.root, target, panel, axis, ratio, placement) {
            Some(r) => {
                lemma_members_after_root(c, r, panel);
                lemma_members_chain(all_panels(with_root(c, r)), all_panels(c), all_panels(l), panel);
            },
            None => {},
        }
        lemma_tab_with_members(c.root, target, panel);
        match tab_with(c.root, target, panel) {
            Some(r) => {
                lemma_members_after_root(c, r, panel);
                lemma_members_chain(all_panels(with_root(c, r)), all_panels(c), all_panels(l), panel);
            },
            None => {},
        }
    }
    let w = crate::workspace::new_window(c.floating, panel, bounds);
    let floated = LayoutView { floating: c.floating.push(w), ..c };
    lemma_window_ids_push(c.floating, w);
    lemma_push_contains(window_ids(c.floating), panel);
    lemma_all_members(floated);
    assert(members_with(all_panels(floated), all_panels(c), panel));
    lemma_members_chain(all_panels(floated), all_panels(c), all_panels(l), panel);
    if without_panel(l, panel).1 {
        lemma_members_with_same(all_panels(floated), all_panels(l), panel);
    }
    let hidden = LayoutView { hidden: c.hidden.push(panel), ..c };
    lemma_push_contains(c.hidden, panel);
    lemma_all_members(hidden);
    assert(members_with(all_panels(hidden), all_panels(c), panel));
    lemma_members_chain(all_panels(hidden), all_panels(c), all_panels(l), panel);
    if without_panel(l, panel).1 {
        lemma_members_with_same(all_panels(hidden), all_panels(l), panel);
    }
    if l.hidden.contains(panel) {
        let shown = LayoutView { hidden: l.hidden.remove_value(panel), ..l };
        lemma_remove_value_contains(l.hidden, panel);
        lemma_all_members(shown);
        assert forall|x: Seq<char>| x != panel implies (#[trigger] all_panels(shown).contains(x)
            <==> all_panels(l).contains(x)) by {}
        lemma_tab_with_members(shown.root, target, panel);
        match tab_with(shown.root, target, panel) {
            Some(r) => {
                lemma_members_after_root(shown, r, panel);
                lemma_members_chain(all_panels(with_root(shown, r)), all_panels(shown), all_panels(l), panel);
                lemma_members_with_same(all_panels(with_root(shown, r)), all_panels(l), panel);
            },
            None => {},
        }
    }
    match without_document(l.root, document) {
        Some(r) => {
            let wd = crate::workspace::new_window(l.freeform, document, bounds);
            let moved = LayoutView { root: r, freeform: l.freeform.push(wd), ..l };
            lemma_window_ids_push(l.freeform, wd);
            lemma_push_contains(window_ids(l.freeform), document);
            lemma_all_members(moved);
            assert(same_members(all_documents(moved), all_documents(l))) by {
                assert forall|x: Seq<char>| #[trigger] all_documents(moved).contains(x)
                    <==> all_documents(l).contains(x) by {}
            }
            assert(all_panels(moved) =~= all_panels(l));
        },
        None => {},
    }
    if window_ids(l.freeform).contains(document) {
        let docked = LayoutView { freeform: without_window(l.freeform, document), ..l };
        lemma_without_window_ids(l.freeform, document);
        lemma_remove_value_contains(window_ids(l.freeform), document);
        lemma_all_members(docked);
        lemma_document_moves(docked.root, document);
        match with_document(docked.root, document) {
            Some(r) => {
                let n = with_root(docked, r);
                lemma_all_members(n);
                assert(same_members(all_documents(n), all_documents(l))) by {
                    assert forall|x: Seq<char>| #[trigger] all_documents(n).contains(x)
                        <==> all_documents(l).contains(x) by {}
                }
                assert(all_panels(n) =~= all_panels(l));
            },
            None => {},
        }
    }
    match activated_document(l.root, document) {
        Some(r) => {
            assert(all_panels(with_root(l, r)) =~= all_panels(l));
            assert(all_documents(with_root(l, r)) =~= all_documents(l));
        },
        None => match window_ids(l.freeform).index_of_first(document) {
            Some(i) => {
                window_ids(l.freeform).index_of_first_ensures(document);
                let raised = LayoutView {
                    freeform: l.freeform.update(
                        i,
                        crate::workspace::raised(
                            l.freeform[i],
                            crate::workspace::next_z(crate::workspace::window_z_orders(l.freeform)),
                        ),
                    ),
                    ..l
                };
                assert(window_ids(raised.freeform) =~= window_ids(l.freeform));
                assert(all_documents(raised) =~= all_documents(l));
            },
            None => {},
        },
    }
    match activated_panel(l.root, panel) {
        Some(r) => {
            assert(all_panels(with_root(l, r)) =~= all_panels(l));
            assert(all_documents(with_root(l, r)) =~= all_documents(l));
        },
        None => {},
    }
    match resized(l.root, panel, ratio) {
        Some(r) => {
            assert(all_panels(with_root(l, r)) =~= all_panels(l));
            assert(all_documents(with_root(l, r)) =~= all_documents(l));
        },
        None => {},
    }
}

/// Whether some tab group of `node` holds both `target` and `panel` and has
/// `panel` selected.
pub open spec fn tab_group_with(node: NodeView, target: Seq<char>, panel: Seq<char>) -> bool
    decreases node,
{
    match node {
        NodeView::Split { first, second, .. } => tab_group_with(*first, target, panel)
            || tab_group_with(*second, target, panel),
        NodeView::Tabs { items, active } => items.contains(target) && items.contains(panel)
            && active == Some(panel),
        _ => false,
    }
}

proof fn lemma_concat_no_dup(a: Seq<Seq<char>>, b: Seq<Seq<char>>)
    ensures
        (a + b).no_duplicates() <==> (a.no_duplicates() && b.no_duplicates() && forall|x: Seq<char>|
            #[trigger] a.contains(x) ==> !b.contains(x)),
{
    if (a + b).no_duplicates() {
        lemma_no_duplicates_prefix(a, b);
        assert forall|i: int, j: int| 0 <= i < b.len() && 0 <= j < b.len() && i != j implies b[i]
            != b[j] by {
            assert((a + b)[a.len() + i] == b[i] && (a + b)[a.len() + j] == b[j]);
        }
        assert forall|x: Seq<char>| #[trigger] a.contains(x) implies !b.contains(x) by {
            if b.contains(x) {
                let i = choose|i: int| 0 <= i < a.len() && a[i] == x;
                let j = choose|j: int| 0 <= j < b.len() && b[j] == x;
                assert((a + b)[i] == (a + b)[a.len() + j]);
            }
        }
    }
    if a.no_duplicates() && b.no_duplicates() && forall|x: Seq<char>| #[trigger] a.contains(x)
        ==> !b.contains(x) {
        assert forall|i: int, j: int| 0 <= i < a.len() && 0 <= j < b.len() implies a[i] != b[j] by {
            assert(a.contains(a[i]));
            assert(b.contains(b[j]));
        }
        vstd::seq_lib::lemma_no_dup_in_concat(a, b);
    }
}

proof fn lemma_remove_value_no_dup(s: Seq<Seq<char>>, v: Seq<char>)
    requires
        s.no_duplicates(),
    ensures
        s.remove_value(v).no_duplicates(),
        !s.remove_value(v).contains(v),
{
    s.index_of_first_ensures(v);
    match s.index_of_first(v) {
        Some(i) => {
            let r = s.remove(i);
            assert forall|a: int, b: int| 0 <= a < r.len() && 0 <= b < r.len() && a != b implies r[a]
                != r[b] by {
                let sa = if a < i { a } else { a + 1 };
                let sb = if b < i { b } else { b + 1 };
                assert(r[a] == s[sa] && r[b] == s[sb]);
            }
            if r.contains(v) {
                let k = choose|k: int| 0 <= k < r.len() && r[k] == v;
                let sk = if k < i { k } else { k + 1 };
                assert(r[k] == s[sk]);
            }
        },
        None => {},
    }
}

proof fn lemma_tab_with_found(node: NodeView, target: Seq<char>, p: Seq<char>)
    ensures
        tab_with(node, target, p) is Some <==> node_panels(node).contains(target),
        tab_with(node, target, p) matches Some(r) ==> tab_group_with(r, target, p),
    decreases node,
{
    match node {
        NodeView::Split { first, second, .. } => {
            lemma_tab_with_found(*first, target, p);
            lemma_tab_with_found(*second, target, p);
            lemma_concat_contains(node_panels(*first), node_panels(*second));
        },
        NodeView::Tabs { items, active } => {
            lemma_push_contains(items, p);
        },
        NodeView::Panel { id } => {
            if id == target {
                assert(seq![id, p][0] == id && seq![id, p][1] == p);
            } else {
                assert forall|x: Seq<char>| #[trigger] seq![id].contains(x) implies x == id by {}
            }
            assert(seq![id][0] == id);
        },
        _ => {},
    }
}

proof fn lemma_collapsed_keeps_shape(node: NodeView)
    ensures
        document_areas(collapsed(node)) == document_areas(node),
        node_well_formed(node) ==> node_well_formed(collapsed(node)),
{
    match node {
        NodeView::Split { first, second, .. } => {
            assert(document_areas(node) == document_areas(*first) + document_areas(*second));
            if *first is Empty {
                assert(document_areas(*first) == 0);
            } else if *second is Empty {
                assert(document_areas(*second) == 0);
            }
        },
        _ => {},
    }
}

proof fn lemma_detached_keeps_shape(node: NodeView, p: Seq<char>)
    requires
        node_panels(node).no_duplicates(),
        node_well_formed(node),
    ensures
        detached(node, p).1 <==> node_panels(node).contains(p),
        node_panels(detached(node, p).0).no_duplicates(),
        !node_panels(detached(node, p).0).contains(p),
        node_well_formed(detached(node, p).0),
        document_areas(detached(node, p).0) == document_areas(node),
    decreases node,
{
    lemma_detached_members(node, p);
    match node {
        NodeView::Split { axis, ratio, first, second } => {
            assert(node_panels(node) == node_panels(*first) + node_panels(*second));
            lemma_concat_no_dup(node_panels(*first), node_panels(*second));
            lemma_concat_contains(node_panels(*first), node_panels(*second));
            lemma_detached_keeps_shape(*first, p);
            lemma_detached_keeps_shape(*second, p);
            lemma_detached_members(*first, p);
            lemma_detached_members(*second, p);
            let (f, rf) = detached(*first, p);
            let (t, rt) = detached(*second, p);
            if rf {
                let sp = NodeView::Split { axis, ratio, first: Box::new(f), second };
                lemma_collapsed_keeps_members(sp);
                lemma_collapsed_keeps_shape(sp);
                assert(node_panels(sp) == node_panels(f) + node_panels(*second));
                lemma_concat_no_dup(node_panels(f), node_panels(*second));
                lemma_concat_contains(node_panels(f), node_panels(*second));
                assert forall|x: Seq<char>| #[trigger] node_panels(f).contains(x) implies !node_panels(
                    *second,
                ).contains(x) by {
                    assert(node_panels(*first).contains(x));
                }
            } else if rt {
                let sp = NodeView::Split { axis, ratio, first, second: Box::new(t) };
                lemma_collapsed_keeps_members(sp);
                lemma_collapsed_keeps_shape(sp);
                assert(node_panels(sp) == node_panels(*first) + node_panels(t));
                lemma_concat_no_dup(node_panels(*first), node_panels(t));
                lemma_concat_contains(node_panels(*first), node_panels(t));
                assert forall|x: Seq<char>| #[trigger] node_panels(*first).contains(x) implies !node_panels(
                    t,
                ).contains(x) by {
                    if x != p {
                        assert(node_panels(t).contains(x) ==> node_panels(*second).contains(x));
                    }
                }
            }
        },
        NodeView::Tabs { items, active } => {
            lemma_remove_value_contains(items, p);
            if items.contains(p) {
                let rest = items.remove_value(p);
                lemma_remove_value_no_dup(items, p);
                let res = detached(node, p).0;
                assert(node_panels(res) =~= rest);
                if rest.len() > 1 {
                    let selected = if active == Some(p) {
                        first_text(rest)
                    } else {
                        active
                    };
                    if active != Some(p) && active is Some {
                        assert(rest.contains(active->0));
                    }
                    if active == Some(p) {
                        assert(rest.contains(rest[0]));
                    }
                }
            }
        },
        NodeView::Panel { id } => {
            assert(node_panels(node) =~= seq![id]);
            assert(seq![id][0] == id);
            assert(node_panels(NodeView::Empty) =~= Seq::<Seq<char>>::empty());
        },
        _ => {},
    }
}

proof fn lemma_tab_with_keeps_shape(node: NodeView, target: Seq<char>, p: Seq<char>)
    requires
        node_panels(node).no_duplicates(),
        !node_panels(node).contains(p),
        node_well_formed(node),
    ensures
        tab_with(node, target, p) matches Some(r) ==> node_panels(r).no_duplicates()
            && node_well_formed(r) && document_areas(r) == document_areas(node),
    decreases node,
{
    match node {
        NodeView::Split { axis, ratio, first, second } => {
            lemma_concat_no_dup(node_panels(*first), node_panels(*second));
            lemma_concat_contains(node_panels(*first), node_panels(*second));
            lemma_tab_with_keeps_shape(*first, target, p);
            lemma_tab_with_keeps_shape(*second, target, p);
            lemma_tab_with_members(*first, target, p);
            lemma_tab_with_members(*second, target, p);
            match tab_with(*first, target, p) {
                Some(f) => {
                    lemma_concat_no_dup(node_panels(f), node_panels(*second));
                    assert forall|x: Seq<char>| #[trigger] node_panels(f).contains(x) implies !node_panels(
                        *second,
                    ).contains(x) by {
                        assert(node_panels(*first).contains(x) || x == p);
                    }
                },
                None => match tab_with(*second, target, p) {
                    Some(t) => {
                        lemma_concat_no_dup(node_panels(*first), node_panels(t));
                        assert forall|x: Seq<char>| #[trigger] node_panels(*first).contains(x) implies !node_panels(
                            t,
                        ).contains(x) by {
                            assert(node_panels(t).contains(x) <==> (node_panels(*second).contains(x)
                                || x == p));
                        }
                    },
                    None => {},
                },
            }
        },
        NodeView::Tabs { items, active } => {
            lemma_no_duplicates_push(items, p);
            lemma_push_contains(items, p);
        },
        NodeView::Panel { id } => {
            assert(seq![id][0] == id);
            assert(seq![id, p] =~= seq![id].push(p));
            lemma_no_duplicates_push(seq![id], p);
            assert(seq![id, p][1] == p);
        },
        _ => {},
    }
}

proof fn lemma_without_window_bounded(items: Seq<WindowView>, id: Seq<char>)
    requires
        windows_bounded(items),
    ensures
        windows_bounded(without_window(items, id)),
{
    match window_ids(items).index_of_first(id) {
        Some(i) => {
            window_ids(items).index_of_first_ensures(id);
            let r = items.remove(i);
            assert forall|k: int| 0 <= k < r.len() implies bounds_valid(#[trigger] r[k].bounds) by {
                if k < i {
                    assert(r[k] == items[k]);
                } else {
                    assert(r[k] == items[k + 1]);
                }
            }
        },
        None => {},
    }
}

/// Moving `panel` into a tab group beside `target` in a well-formed workspace
/// is refused when the two are the same panel, fails with `PanelNotFound`
/// exactly when `target` is not docked, and otherwise succeeds: the panel is
/// then docked and selected in a tab group that also holds `target`, it is
/// neither floating nor hidden, and the workspace stays well formed, so the
/// panel occurs nowhere else.
pub proof fn law_moving_to_tabs_places_the_panel_beside_its_target(
    l: LayoutView,
    target: Seq<char>,
    panel: Seq<char>,
)
    requires
        well_formed(l),
    ensures
        target == panel ==> move_to_tabs_result(l, target, panel) == Err::<
            LayoutView,
            WorkspaceErrorView,
        >(WorkspaceErrorView::SameSourceAndTarget),
        target != panel && !node_panels(l.root).contains(target) ==> move_to_tabs_result(
            l,
            target,
            panel,
        ) == Err::<LayoutView, WorkspaceErrorView>(WorkspaceErrorView::PanelNotFound(target)),
        target != panel && node_panels(l.root).contains(target) ==> move_to_tabs_result(
            l,
            target,
            panel,
        ) is Ok,
        move_to_tabs_result(l, target, panel) matches Ok(n) ==> {
            &&& well_formed(n)
            &&& tab_group_with(n.root, target, panel)
            &&& node_panels(n.root).contains(panel)
            &&& !window_ids(n.floating).contains(panel)
            &&& !n.hidden.contains(panel)
        },
{
    if target != panel {
        let c = without_panel(l, panel).0;
        let np = node_panels(l.root);
        let wl = window_ids(l.floating);
        let hl = l.hidden;
        lemma_concat_no_dup(np + wl, hl);
        lemma_concat_no_dup(np, wl);
        lemma_concat_contains(np, wl);
        lemma_detached_keeps_shape(l.root, panel);
        lemma_detached_members(l.root, panel);
        lemma_without_window_ids(l.floating, panel);
        lemma_remove_value_no_dup(wl, panel);
        lemma_remove_value_contains(wl, panel);
        lemma_remove_value_no_dup(hl, panel);
        lemma_remove_value_contains(hl, panel);
        lemma_tab_with_found(c.root, target, panel);
        lemma_without_panel_members(l, panel);
        match tab_with(c.root, target, panel) {
            Some(r) => {
                lemma_tab_with_keeps_shape(c.root, target, panel);
                lemma_tab_with_members(c.root, target, panel);
                let n = with_root(c, r);
                let nr = node_panels(r);
                let wf = window_ids(c.floating);
                lemma_concat_no_dup(nr, wf);
                lemma_concat_contains(nr, wf);
                assert forall|x: Seq<char>| #[trigger] nr.contains(x) implies !wf.contains(x) by {
                    if wf.contains(x) {
                        assert(x != panel);
                        assert(np.contains(x));
                        assert(wl.contains(x));
                    }
                }
                lemma_concat_no_dup(nr + wf, c.hidden);
                assert forall|x: Seq<char>| #[trigger] (nr + wf).contains(x) implies !c.hidden.contains(
                    x,
                ) by {
                    if c.hidden.contains(x) {
                        assert(x != panel);
                        assert(hl.contains(x));
                        assert(np.contains(x) || wl.contains(x));
                        assert((np + wl).contains(x));
                    }
                }
                lemma_without_window_bounded(l.floating, panel);
                assert(all_documents(n) =~= all_documents(c));
                law_validation_accepts_exactly_well_formed_layouts(n);
            },
            None => {},
        }
    }
}

/// Whether some split of `node` has the given axis and ratio, holds a lone
/// `panel` in the branch named by `placement`, and holds `target` in its other
/// branch.
pub open spec fn split_beside(
    node: NodeView,
    panel: Seq<char>,
    target: Seq<char>,
    axis: DockAxis,
    ratio: u32,
    placement: SplitPlacement,
) -> bool
    decreases node,
{
    match node {
        NodeView::Split { axis: a, ratio: q, first, second } => {
            ||| a == axis && q == ratio && match placement {
                SplitPlacement::First => *first == NodeView::Panel { id: panel } && node_panels(
                    *second,
                ).contains(target),
                SplitPlacement::Second => *second == NodeView::Panel { id: panel } && node_panels(
                    *first,
                ).contains(target),
            }
            ||| split_beside(*first, panel, target, axis, ratio, placement)
            ||| split_beside(*second, panel, target, axis, ratio, placement)
        },
        _ => false,
    }
}

proof fn lemma_single_panel(id: Seq<char>)
    ensures
        node_panels(NodeView::Panel { id }).contains(id),
{
    assert(node_panels(NodeView::Panel { id })[0] == id);
}

/// Whether `new` is `old` with one panel or tab group that holds `target`
/// replaced by a split with the given axis and ratio, whose branch named by
/// `placement` is a lone `panel` and whose other branch is the replaced node;
/// every other node is unchanged.
pub open spec fn placed_beside(
    old: NodeView,
    new: NodeView,
    panel: Seq<char>,
    target: Seq<char>,
    axis: DockAxis,
    ratio: u32,
    placement: SplitPlacement,
) -> bool
    decreases old,
{
    let holds_target = match old {
        NodeView::Panel { id } => id == target,
        NodeView::Tabs { items, .. } => items.contains(target),
        _ => false,
    };
    match new {
        NodeView::Split { axis: a, ratio: q, first: f, second: s } => {
            ||| holds_target && a == axis && q == ratio && match placement {
                SplitPlacement::First => *f == NodeView::Panel { id: panel } && *s == old,
                SplitPlacement::Second => *f == old && *s == NodeView::Panel { id: panel },
            }
            ||| match old {
                NodeView::Split { axis: a0, ratio: q0, first: f0, second: s0 } => {
                    &&& a == a0
                    &&& q == q0
                    &&& {
                        ||| placed_beside(*f0, *f, panel, target, axis, ratio, placement) && s == s0
                        ||| f == f0 && placed_beside(*s0, *s, panel, target, axis, ratio, placement)
                    }
                },
                _ => false,
            }
        },
        _ => false,
    }
}

proof fn lemma_split_at_places(
    node: NodeView,
    target: Seq<char>,
    panel: Seq<char>,
    axis: DockAxis,
    ratio: u32,
    placement: SplitPlacement,
)
    ensures
        split_at(node, target, panel, axis, ratio, placement) matches Some(r) ==> split_beside(
            r,
            panel,
            target,
            axis,
            normalized_ratio(ratio),
            placement,
        ) && placed_beside(node, r, panel, target, axis, normalized_ratio(ratio), placement),
    decreases node,
{
    match node {
        NodeView::Split { first, second, .. } => {
            lemma_split_at_places(*first, target, panel, axis, ratio, placement);
            lemma_split_at_places(*second, target, panel, axis, ratio, placement);
        },
        NodeView::Panel { id } => {
            lemma_single_panel(id);
        },
        _ => {},
    }
}

/// Splitting at `target` puts `panel` alone into the branch that `placement`
/// names, beside the node that held `target`, under a new split with the
/// requested axis and the normalized ratio, and changes nothing else; this
/// holds of the tree operation on any tree and of every successful
/// `split_panel`, whose tree is the one left after `panel` was taken out.
pub proof fn law_splitting_places_the_panel_on_the_requested_side(
    node: NodeView,
    l: LayoutView,
    target: Seq<char>,
    panel: Seq<char>,
    axis: DockAxis,
    ratio: u32,
    placement: SplitPlacement,
)
    ensures
        split_at(node, target, panel, axis, ratio, placement) matches Some(r) ==> split_beside(
            r,
            panel,
            target,
            axis,
            normalized_ratio(ratio),
            placement,
        ) && placed_beside(node, r, panel, target, axis, normalized_ratio(ratio), placement),
        split_panel_result(l, target, panel, axis, ratio, placement) matches Ok(n) ==> split_beside(
            n.root,
            panel,
            target,
            axis,
            normalized_ratio(ratio),
            placement,
        ) && placed_beside(
            without_panel(l, panel).0.root,
            n.root,
            panel,
            target,
            axis,
            normalized_ratio(ratio),
            placement,
        ),
{
    lemma_split_at_places(node, target, panel, axis, ratio, placement);
    let c = without_panel(l, panel).0;
    lemma_split_at_places(c.root, target, panel, axis, ratio, placement);
}

/// Whether `node` is a split that holds `p` in a branch while neither branch
/// is itself a split holding `p`: an innermost split around `p`.
pub open spec fn innermost_split_of(node: NodeView, p: Seq<char>) -> bool {
    match node {
        NodeView::Split { first, second, .. } => {
            &&& node_panels(*first).contains(p) || node_panels(*second).contains(p)
            &&& !(*first is Split && node_panels(*first).contains(p))
            &&& !(*second is Split && node_panels(*second).contains(p))
        },
        _ => false,
    }
}

/// Whether `new` is `old` with the ratio of one innermost split around `p`
/// set to `ratio`, and every other node, ratio and axis unchanged.
pub open spec fn ratio_set_innermost(old: NodeView, new: NodeView, p: Seq<char>, ratio: u32) -> bool
    decreases old,
{
    match old {
        NodeView::Split { axis, ratio: q, first, second } => match new {
            NodeView::Split { axis: a2, ratio: q2, first: f2, second: s2 } => {
                &&& a2 == axis
                &&& {
                    ||| innermost_split_of(old, p) && q2 == ratio && f2 == first && s2 == second
                    ||| q2 == q && ratio_set_innermost(*first, *f2, p, ratio) && s2 == second
                    ||| q2 == q && f2 == first && ratio_set_innermost(*second, *s2, p, ratio)
                }
            },
            _ => false,
        },
        _ => false,
    }
}

proof fn lemma_contains_panel_members(node: NodeView, p: Seq<char>)
    ensures
        crate::dock_tree::node_contains_panel(node, p) <==> node_panels(node).contains(p),
    decreases node,
{
    match node {
        NodeView::Split { first, second, .. } => {
            lemma_contains_panel_members(*first, p);
            lemma_contains_panel_members(*second, p);
            lemma_concat_contains(node_panels(*first), node_panels(*second));
        },
        NodeView::Panel { id } => {
            lemma_single_panel(id);
            assert forall|x: Seq<char>| #[trigger] seq![id].contains(x) implies x == id by {}
        },
        _ => {},
    }
}

proof fn lemma_resized_innermost(node: NodeView, p: Seq<char>, ratio: u32)
    ensures
        node is Split && node_panels(node).contains(p) ==> resized(node, p, ratio) is Some,
        resized(node, p, ratio) matches Some(n) ==> ratio_set_innermost(
            node,
            n,
            p,
            normalized_ratio(ratio),
        ),
    decreases node,
{
    match node {
        NodeView::Split { first, second, .. } => {
            lemma_resized_innermost(*first, p, ratio);
            lemma_resized_innermost(*second, p, ratio);
            lemma_contains_panel_members(*first, p);
            lemma_contains_panel_members(*second, p);
            lemma_concat_contains(node_panels(*first), node_panels(*second));
        },
        _ => {},
    }
}

/// Resizing for `p` changes the ratio of exactly one split, an innermost
/// split around `p`, to the normalized ratio, and leaves the rest of the tree
/// as it was; it fails exactly when no split holds `p`.
pub proof fn law_resizing_changes_the_innermost_split(
    node: NodeView,
    l: LayoutView,
    p: Seq<char>,
    ratio: u32,
)
    ensures
        resized(node, p, ratio) matches Some(n) ==> ratio_set_innermost(
            node,
            n,
            p,
            normalized_ratio(ratio),
        ),
        node is Split && node_panels(node).contains(p) ==> resized(node, p, ratio) is Some,
        resize_result(l, p, ratio) matches Ok(n) ==> ratio_set_innermost(
            l.root,
            n.root,
            p,
            normalized_ratio(ratio),
        ),
{
    lemma_resized_innermost(node, p, ratio);
    lemma_resized_innermost(l.root, p, ratio);
}

/// Whether some document area of `node` holds `d` and has it selected.
pub open spec fn selects_document(node: NodeView, d: Seq<char>) -> bool
    decreases node,
{
    match node {
        NodeView::Split { first, second, .. } => selects_document(*first, d) || selects_document(
            *second,
            d,
        ),
        NodeView::Documents { items, active, .. } => items.contains(d) && active == Some(d),
        _ => false,
    }
}

proof fn lemma_activated_selects(node: NodeView, d: Seq<char>)
    ensures
        activated_document(node, d) is Some <==> node_documents(node).contains(d),
        activated_document(node, d) matches Some(n) ==> selects_document(n, d) && node_documents(n)
            == node_documents(node),
    decreases node,
{
    match node {
        NodeView::Split { first, second, .. } => {
            lemma_activated_selects(*first, d);
            lemma_activated_selects(*second, d);
            lemma_concat_contains(node_documents(*first), node_documents(*second));
        },
        _ => {},
    }
}

/// Activating a docked document selects it in the document area that holds
/// it and keeps the docked documents; activating any document fails only
/// when it is neither docked nor free-form.
pub proof fn law_activating_a_docked_document_selects_it(node: NodeView, l: LayoutView, d: Seq<char>)
    ensures
        activated_document(node, d) is Some <==> node_documents(node).contains(d),
        activated_document(node, d) matches Some(n) ==> selects_document(n, d) && node_documents(n)
            == node_documents(node),
        node_documents(l.root).contains(d) ==> (activate_document_result(l, d) matches Ok(n)
            ==> selects_document(n.root, d)),
{
    lemma_activated_selects(node, d);
    lemma_activated_selects(l.root, d);
}

/// Whether `x` is on show in `node`: the selected tab of a tab group, or a
/// panel on its own.
pub open spec fn shows_panel(node: NodeView, x: Seq<char>) -> bool
    decreases node,
{
    match node {
        NodeView::Split { first, second, .. } => shows_panel(*first, x) || shows_panel(*second, x),
        NodeView::Tabs { active, .. } => active == Some(x),
        NodeView::Panel { id } => id == x,
        _ => false,
    }
}

proof fn lemma_detached_keeps_shown(node: NodeView, p: Seq<char>, x: Seq<char>)
    requires
        node_well_formed(node),
        x != p,
        shows_panel(node, x),
    ensures
        shows_panel(detached(node, p).0, x),
    decreases node,
{
    match node {
        NodeView::Split { first, second, .. } => {
            if shows_panel(*first, x) {
                lemma_detached_keeps_shown(*first, p, x);
            }
            if shows_panel(*second, x) {
                lemma_detached_keeps_shown(*second, p, x);
            }
        },
        NodeView::Tabs { items, active } => {
            lemma_remove_value_contains(items, p);
            if items.contains(p) {
                let rest = items.remove_value(p);
                assert(rest.contains(x));
                if rest.len() == 1 {
                    assert(rest[0] == x);
                }
            }
        },
        _ => {},
    }
}

/// Taking `p` out of the docked tree keeps every other panel on show: a
/// selected tab stays selected, or stands alone when its group shrinks to it.
/// In particular a tab group that keeps at least two tabs keeps its selection
/// unless the selected tab is the one removed, and then selects its first
/// remaining tab; a group left with one tab becomes that panel, and an emptied
/// group disappears.
pub proof fn law_detaching_keeps_other_panels_on_show(
    node: NodeView,
    l: LayoutView,
    p: Seq<char>,
    x: Seq<char>,
    items: Seq<Seq<char>>,
    bounds: (u32, u32, u32, u32),
)
    ensures
        node_well_formed(node) && x != p && shows_panel(node, x) ==> shows_panel(
            detached(node, p).0,
            x,
        ),
        x != p && items.remove_value(p).len() >= 2 ==> detached(
            NodeView::Tabs { items, active: Some(x) },
            p,
        ).0 == (NodeView::Tabs { items: items.remove_value(p), active: Some(x) }),
        items.contains(p) && items.remove_value(p).len() >= 2 ==> detached(
            NodeView::Tabs { items, active: Some(p) },
            p,
        ).0 == (NodeView::Tabs {
            items: items.remove_value(p),
            active: Some(items.remove_value(p)[0]),
        }),
        items.contains(p) && items.remove_value(p).len() >= 2 ==> detached(
            NodeView::Tabs { items, active: None },
            p,
        ).0 == (NodeView::Tabs { items: items.remove_value(p), active: None }),
        items.contains(p) && items.remove_value(p).len() == 1 ==> detached(
            NodeView::Tabs { items, active: Some(x) },
            p,
        ).0 == (NodeView::Panel { id: items.remove_value(p)[0] }),
        items.contains(p) && items.remove_value(p).len() == 0 ==> detached(
            NodeView::Tabs { items, active: Some(x) },
            p,
        ).0 == NodeView::Empty,
        well_formed(l) && x != p && shows_panel(l.root, x) ==> (hide_panel_result(l, p) matches Ok(
            n,
        ) ==> shows_panel(n.root, x)),
        well_formed(l) && x != p && shows_panel(l.root, x) ==> (float_panel_result(l, p, bounds)
            matches Ok(n) ==> shows_panel(n.root, x)),
{
    if node_well_formed(node) && x != p && shows_panel(node, x) {
        lemma_detached_keeps_shown(node, p, x);
    }
    if x != p && items.remove_value(p).len() >= 2 {
        if !items.contains(p) {
            lemma_remove_value_contains(items, p);
            items.index_of_first_ensures(p);
        }
    }
    if well_formed(l) && x != p && shows_panel(l.root, x) {
        lemma_detached_keeps_shown(l.root, p, x);
    }
}

} // verus!
