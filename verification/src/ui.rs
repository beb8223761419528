//! Runtime UI data model for HUDs, menus and debug panels: an ordered list of
//! labels, buttons and separators, and the set of buttons clicked this frame.

use vstd::prelude::*;
use crate::chars::str_equal;

verus! {

/// One element of the runtime UI.
#[derive(Clone, Debug)]
pub enum UiElement {
    Label { id: String, text: String },
    Button { id: String, text: String },
    Separator,
}

/// An element read through the texts it carries.
pub enum UiElementView {
    Label { id: Seq<char>, text: Seq<char> },
    Button { id: Seq<char>, text: Seq<char> },
    Separator,
}

/// The view of an element.
pub open spec fn element_view(e: UiElement) -> UiElementView {
    match e {
        UiElement::Label { id, text } => UiElementView::Label { id: id@, text: text@ },
        UiElement::Button { id, text } => UiElementView::Button { id: id@, text: text@ },
        UiElement::Separator => UiElementView::Separator,
    }
}

/// Runtime UI: the elements to show, in order, and the ids of the buttons clicked.
pub struct RuntimeUi {
    elements: Vec<UiElement>,
    clicked: Vec<String>,
}

impl RuntimeUi {
    /// The elements, in order.
    pub closed spec fn elements_view(&self) -> Seq<UiElementView> {
        self.elements@.map_values(|e: UiElement| element_view(e))
    }

    /// The ids of the buttons clicked.
    pub closed spec fn clicked_view(&self) -> Set<Seq<char>> {
        self.clicked@.map_values(|s: String| s@).to_set()
    }

    /// An empty UI with no clicks.
    pub fn new() -> (r: Self)
        ensures
            r.elements_view() == Seq::<UiElementView>::empty(),
            r.clicked_view() == Set::<Seq<char>>::empty(),
    {
        let r = RuntimeUi { elements: Vec::new(), clicked: Vec::new() };
        assert(r.elements_view() =~= Seq::<UiElementView>::empty());
        assert(r.clicked@.map_values(|s: String| s@) =~= Seq::<Seq<char>>::empty());
        assert(r.clicked_view() =~= Set::<Seq<char>>::empty());
        r
    }

    /// Removes all elements and clicks.
    pub fn clear(&mut self)
        ensures
            final(self).elements_view() == Seq::<UiElementView>::empty(),
            final(self).clicked_view() == Set::<Seq<char>>::empty(),
    {
        self.elements.clear();
        self.clicked.clear();
        assert(self.elements_view() =~= Seq::<UiElementView>::empty());
        assert(self.clicked@.map_values(|s: String| s@) =~= Seq::<Seq<char>>::empty());
        assert(self.clicked_view() =~= Set::<Seq<char>>::empty());
    }

    fn push_element(&mut self, e: UiElement)
        ensures
            final(self).elements_view() == old(self).elements_view().push(element_view(e)),
            final(self).clicked_view() == old(self).clicked_view(),
    {
        self.elements.push(e);
        assert(self.elements_view() =~= old(self).elements_view().push(element_view(e)));
    }

    /// Appends a text label.
    pub fn label(&mut self, id: &str, text: &str)
        ensures
            final(self).elements_view() == old(self).elements_view().push(
                UiElementView::Label { id: id@, text: text@ },
            ),
            final(self).clicked_view() == old(self).clicked_view(),
    {
        self.push_element(UiElement::Label { id: id.to_string(), text: text.to_string() });
    }

    /// Appends a button.
    pub fn button(&mut self, id: &str, text: &str)
        ensures
            final(self).elements_view() == old(self).elements_view().push(
                UiElementView::Button { id: id@, text: text@ },
            ),
            final(self).clicked_view() == old(self).clicked_view(),
    {
        self.push_element(UiElement::Button { id: id.to_string(), text: text.to_string() });
    }

    /// Appends a separator.
    pub fn separator(&mut self)
        ensures
            final(self).elements_view() == old(self).elements_view().push(UiElementView::Separator),
            final(self).clicked_view() == old(self).clicked_view(),
    {
        self.push_element(UiElement::Separator);
    }

    /// Whether the button with this id was clicked.
    pub fn clicked(&self, id: &str) -> (r: bool)
        ensures
            r == self.clicked_view().contains(id@),
    {
        let ghost ids = self.clicked@.map_values(|s: String| s@);
        let mut i: usize = 0;
        while i < self.clicked.len()
            invariant
                i <= self.clicked@.len(),
                ids == self.clicked@.map_values(|s: String| s@),
                forall|j: int| 0 <= j < i ==> #[trigger] ids[j] != id@,
            decreases self.clicked@.len() - i,
        {
            if str_equal(self.clicked[i].as_str(), id) {
                assert(ids[i as int] == id@);
                assert(ids.contains(id@));
                return true;
            }
            i = i + 1;
        }
        assert(!ids.contains(id@));
        false
    }

    /// The elements, in order.
    pub fn elements(&self) -> (r: &[UiElement])
        ensures
            r@.map_values(|e: UiElement| element_view(e)) == self.elements_view(),
    {
        self.elements.as_slice()
    }

    /// Forgets all clicks (the start of a frame in which the UI is shown).
    pub fn clear_clicks(&mut self)
        ensures
            final(self).elements_view() == old(self).elements_view(),
            final(self).clicked_view() == Set::<Seq<char>>::empty(),
    {
        self.clicked.clear();
        assert(self.clicked@.map_values(|s: String| s@) =~= Seq::<Seq<char>>::empty());
        assert(self.clicked_view() =~= Set::<Seq<char>>::empty());
    }

    /// Records that the button with this id was clicked.
    pub fn record_click(&mut self, id: &str)
        ensures
            final(self).elements_view() == old(self).elements_view(),
            final(self).clicked_view() == old(self).clicked_view().insert(id@),
    {
        if self.clicked(id) {
            assert(self.clicked_view().insert(id@) =~= self.clicked_view());
            return;
        }
        let ghost before = self.clicked@;
        self.clicked.push(id.to_string());
        assert(self.clicked@.map_values(|s: String| s@) =~= before.map_values(|s: String| s@).push(id@));
        proof {
            before.map_values(|s: String| s@).lemma_push_to_set_commute(id@);
        }
        assert(self.clicked_view() =~= old(self).clicked_view().insert(id@));
    }
}

impl Default for RuntimeUi {
    fn default() -> (r: Self)
        ensures
            r.elements_view() == Seq::<UiElementView>::empty(),
            r.clicked_view() == Set::<Seq<char>>::empty(),
    {
        Self::new()
    }
}

/// Developer overlay switch.
#[derive(Clone, Debug)]
pub struct DevOverlay {
    pub visible: bool,
}

impl Default for DevOverlay {
    /// The overlay starts visible.
    fn default() -> (r: Self)
        ensures
            r.visible,
    {
        DevOverlay { visible: true }
    }
}

/// Screen anchor of a camera-locked game UI widget.
#[derive(Clone, Copy, Debug, PartialEq, Eq, Hash, Structural)]
pub enum GameUiAnchor {
    Center,
    TopLeft,
    TopCenter,
    TopRight,
    BottomLeft,
    BottomCenter,
    BottomRight,
}

} // verus!
