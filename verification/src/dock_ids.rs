//! Stable identifiers and small enumerations of the docking workspace.

use vstd::prelude::*;

verus! {

/// Stable application-defined identifier of a tool panel.
#[derive(Debug, PartialEq, Eq, Hash, PartialOrd, Ord)]
pub struct PanelId(String);

impl View for PanelId {
    type V = Seq<char>;

    closed spec fn view(&self) -> Seq<char> {
        self.0@
    }
}

impl Clone for PanelId {
    fn clone(&self) -> (r: Self)
        ensures
            r == *self,
    {
        PanelId(self.0.clone())
    }
}

impl PanelId {
    /// Creates a panel identifier.
    pub fn new(id: String) -> (r: Self)
        ensures
            r@ == id@,
    {
        PanelId(id)
    }

    /// Returns the application-defined identifier text.
    pub fn as_str(&self) -> (r: &str)
        ensures
            r@ == self@,
    {
        self.0.as_str()
    }

    /// Returns whether both identifiers have the same text.
    pub fn same_as(&self, other: &PanelId) -> (r: bool)
        ensures
            r == (self@ == other@),
    {
        self.0 == other.0
    }
}

/// Stable application-defined identifier of a document.
#[derive(Debug, PartialEq, Eq, Hash, PartialOrd, Ord)]
pub struct DocumentId(String);

impl View for DocumentId {
    type V = Seq<char>;

    closed spec fn view(&self) -> Seq<char> {
        self.0@
    }
}

impl Clone for DocumentId {
    fn clone(&self) -> (r: Self)
        ensures
            r == *self,
    {
        DocumentId(self.0.clone())
    }
}

impl DocumentId {
    /// Creates a document identifier.
    pub fn new(id: String) -> (r: Self)
        ensures
            r@ == id@,
    {
        DocumentId(id)
    }

    /// Returns the application-defined identifier text.
    pub fn as_str(&self) -> (r: &str)
        ensures
            r@ == self@,
    {
        self.0.as_str()
    }

    /// Returns whether both identifiers have the same text.
    pub fn same_as(&self, other: &DocumentId) -> (r: bool)
        ensures
            r == (self@ == other@),
    {
        self.0 == other.0
    }
}

/// The texts of a sequence of panel identifiers.
pub open spec fn panel_texts(ids: Seq<PanelId>) -> Seq<Seq<char>> {
    ids.map_values(|id: PanelId| id@)
}

/// The texts of a sequence of document identifiers.
pub open spec fn document_texts(ids: Seq<DocumentId>) -> Seq<Seq<char>> {
    ids.map_values(|id: DocumentId| id@)
}

/// The text of an optional panel identifier.
pub open spec fn panel_text_opt(id: Option<PanelId>) -> Option<Seq<char>> {
    match id {
        Some(id) => Some(id@),
        None => None,
    }
}

/// The text of an optional document identifier.
pub open spec fn document_text_opt(id: Option<DocumentId>) -> Option<Seq<char>> {
    match id {
        Some(id) => Some(id@),
        None => None,
    }
}

/// Removing an element commutes with taking texts.
pub proof fn lemma_map_remove<A, B>(s: Seq<A>, f: spec_fn(A) -> B, i: int)
    requires
        0 <= i < s.len(),
    ensures
        s.remove(i).map_values(f) == s.map_values(f).remove(i),
{
    assert(s.remove(i).map_values(f) =~= s.map_values(f).remove(i));
}

/// Appending an element commutes with taking texts.
pub proof fn lemma_map_push<A, B>(s: Seq<A>, f: spec_fn(A) -> B, x: A)
    ensures
        s.push(x).map_values(f) == s.map_values(f).push(f(x)),
{
    assert(s.push(x).map_values(f) =~= s.map_values(f).push(f(x)));
}

/// Removing the first occurrence of `x`, found at `i`, is removing index `i`.
pub proof fn lemma_remove_value_at<A>(s: Seq<A>, x: A, i: int)
    requires
        0 <= i < s.len(),
        s[i] == x,
        forall|j: int| 0 <= j < i ==> s[j] != x,
    ensures
        s.remove_value(x) == s.remove(i),
        s.index_of_first(x) == Some(i),
{
    s.index_of_first_ensures(x);
    match s.index_of_first(x) {
        Some(k) => {
            if k < i {
                assert(s[k] != x);
            } else if k > i {
                assert(s[i] != x);
            }
        },
        None => {
            assert(s.contains(x));
        },
    }
}

/// Removing a value that does not occur leaves the sequence unchanged.
pub proof fn lemma_remove_value_absent<A>(s: Seq<A>, x: A)
    requires
        !s.contains(x),
    ensures
        s.remove_value(x) == s,
        s.index_of_first(x) == None::<int>,
{
    s.index_of_first_ensures(x);
}

/// Removes the first identifier with the text of `target`, returning whether
/// one was found.
pub fn take_id(ids: &mut Vec<PanelId>, target: &PanelId) -> (r: bool)
    ensures
        r == panel_texts(old(ids)@).contains(target@),
        panel_texts(final(ids)@) == panel_texts(old(ids)@).remove_value(target@),
{
    let ghost texts = panel_texts(ids@);
    let mut i: usize = 0;
    while i < ids.len()
        invariant
            i <= ids.len(),
            ids@ == old(ids)@,
            texts == panel_texts(ids@),
            forall|j: int| 0 <= j < i ==> texts[j] != target@,
        decreases ids.len() - i,
    {
        if ids[i].same_as(target) {
            proof {
                lemma_remove_value_at(texts, target@, i as int);
                lemma_map_remove(ids@, |id: PanelId| id@, i as int);
            }
            ids.remove(i);
            return true;
        }
        i = i + 1;
    }
    proof {
        assert(!texts.contains(target@));
        lemma_remove_value_absent(texts, target@);
    }
    false
}

/// Removes the first identifier with the text of `target`, returning whether
/// one was found.
pub fn take_document_id(ids: &mut Vec<DocumentId>, target: &DocumentId) -> (r: bool)
    ensures
        r == document_texts(old(ids)@).contains(target@),
        document_texts(final(ids)@) == document_texts(old(ids)@).remove_value(target@),
{
    let ghost texts = document_texts(ids@);
    let mut i: usize = 0;
    while i < ids.len()
        invariant
            i <= ids.len(),
            ids@ == old(ids)@,
            texts == document_texts(ids@),
            forall|j: int| 0 <= j < i ==> texts[j] != target@,
        decreases ids.len() - i,
    {
        if ids[i].same_as(target) {
            proof {
                lemma_remove_value_at(texts, target@, i as int);
                lemma_map_remove(ids@, |id: DocumentId| id@, i as int);
            }
            ids.remove(i);
            return true;
        }
        i = i + 1;
    }
    proof {
        assert(!texts.contains(target@));
        lemma_remove_value_absent(texts, target@);
    }
    false
}

/// Orientation of a dock split.
#[derive(Clone, Copy, Debug, PartialEq, Eq, Structural)]
pub enum DockAxis {
    /// The first and second branches are laid out from left to right.
    Horizontal,
    /// The first and second branches are laid out from top to bottom.
    Vertical,
}

/// Which branch receives a panel when creating a split.
#[derive(Clone, Copy, Debug, PartialEq, Eq, Structural)]
pub enum SplitPlacement {
    /// Put the moved panel before the target branch.
    First,
    /// Put the moved panel after the target branch.
    Second,
}

/// Presentation mode for the central document area.
#[derive(Clone, Copy, Debug, PartialEq, Eq, Structural)]
pub enum DocumentPresentation {
    /// Documents are displayed as tabs in the central area.
    Tabbed,
    /// Documents can be displayed as bounded child windows.
    Freeform,
}

impl Default for DocumentPresentation {
    fn default() -> (r: Self)
        ensures
            r == DocumentPresentation::Tabbed,
    {
        DocumentPresentation::Tabbed
    }
}

/// Returns whether `ids` holds an identifier with the text of `target`.
pub fn contains_panel_id(ids: &Vec<PanelId>, target: &PanelId) -> (r: bool)
    ensures
        r == panel_texts(ids@).contains(target@),
{
    let mut i: usize = 0;
    while i < ids.len()
        invariant
            i <= ids.len(),
            forall|j: int| 0 <= j < i ==> ids@[j]@ != target@,
        decreases ids.len() - i,
    {
        if ids[i].same_as(target) {
            assert(panel_texts(ids@)[i as int] == target@);
            return true;
        }
        i = i + 1;
    }
    assert(!panel_texts(ids@).contains(target@)) by {
        if panel_texts(ids@).contains(target@) {
            let k = choose|k: int| 0 <= k < panel_texts(ids@).len() && panel_texts(ids@)[k] == target@;
            assert(ids@[k]@ == target@);
        }
    }
    false
}

/// Returns whether `ids` holds an identifier with the text of `target`.
pub fn contains_document_id(ids: &Vec<DocumentId>, target: &DocumentId) -> (r: bool)
    ensures
        r == document_texts(ids@).contains(target@),
{
    let mut i: usize = 0;
    while i < ids.len()
        invariant
            i <= ids.len(),
            forall|j: int| 0 <= j < i ==> ids@[j]@ != target@,
        decreases ids.len() - i,
    {
        if ids[i].same_as(target) {
            assert(document_texts(ids@)[i as int] == target@);
            return true;
        }
        i = i + 1;
    }
    assert(!document_texts(ids@).contains(target@)) by {
        if document_texts(ids@).contains(target@) {
            let k = choose|k: int| 0 <= k < document_texts(ids@).len() && document_texts(ids@)[k] == target@;
            assert(ids@[k]@ == target@);
        }
    }
    false
}

} // verus!
