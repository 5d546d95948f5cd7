//! Presentation-layer widgets: plain records of position, size and
//! content. Rendering belongs to the embedding application; the types
//! here only carry and update widget state.

use vstd::prelude::*;

use crate::factor::Factor;

verus! {

/// A top-level window. Components handed to [`Window::add`] are
/// accepted and dropped: the window keeps no component state of its
/// own, exactly as rendering-free widget bookkeeping needs.
pub struct Window {
    pub title: String,
    pub width: u32,
    pub height: u32,
}

impl Window {
    pub fn new(title: &str, width: u32, height: u32) -> (r: Self)
        ensures
            r.title@ == title@,
            r.width == width,
            r.height == height,
    {
        Window { title: title.to_owned(), width, height }
    }

    /// Accepts components for display. The window itself is unchanged.
    pub fn add<F: Fn()>(
        &mut self,
        button: Option<Button<F>>,
        slider: Option<Slider>,
        textbox: Option<TextBox>,
        checkbox: Option<CheckBox>,
    )
        ensures
            *final(self) == *old(self),
    {
    }

    /// Presents the window; a rendering-free no-op here.
    pub fn show(&self) {
    }
}

/// Anything that can be drawn at a position inside a window.
pub trait GUIComponent {
    /// Renders the component; rendering-free implementations do
    /// nothing.
    fn draw(&self);

    /// Moves the component to the given position.
    fn set_position(&mut self, x: u32, y: u32);
}

/// A slider holding a fixed-point factor value.
#[derive(Clone)]
pub struct Slider {
    pub x: u32,
    pub y: u32,
    pub width: u32,
    pub height: u32,
    pub value: Factor,
}

impl Slider {
    pub fn new(x: u32, y: u32, width: u32, height: u32, initial_value: Factor) -> (r: Self)
        ensures
            r.x == x,
            r.y == y,
            r.width == width,
            r.height == height,
            r.value == initial_value,
    {
        Slider { x, y, width, height, value: initial_value }
    }

    pub fn get_value(&self) -> (r: Factor)
        ensures
            r == self.value,
    {
        self.value
    }

    pub fn set_value(&mut self, value: Factor)
        ensures
            final(self).value == value,
            final(self).x == old(self).x && final(self).y == old(self).y && final(self).width
                == old(self).width && final(self).height == old(self).height,
    {
        self.value = value;
    }
}

impl GUIComponent for Slider {
    fn draw(&self) {
    }

    fn set_position(&mut self, x: u32, y: u32) {
        self.x = x;
        self.y = y;
    }
}

/// A push button with a label and an action callback.
pub struct Button<F: Fn()> {
    pub x: u32,
    pub y: u32,
    pub width: u32,
    pub height: u32,
    pub label: String,
    pub action: F,
}

impl<F: Fn()> Button<F> {
    pub fn new(x: u32, y: u32, width: u32, height: u32, label: &str, action: F) -> (r: Self)
        ensures
            r.x == x,
            r.y == y,
            r.width == width,
            r.height == height,
            r.label@ == label@,
            r.action == action,
    {
        Button { x, y, width, height, label: label.to_owned(), action }
    }

    /// Invokes the button's action.
    pub fn click(&self)
        requires
            call_requires(self.action, ()),
        ensures
            call_ensures(self.action, (), ()),
    {
        (self.action)()
    }
}

impl<F: Fn()> GUIComponent for Button<F> {
    fn draw(&self) {
    }

    fn set_position(&mut self, x: u32, y: u32) {
        self.x = x;
        self.y = y;
    }
}

/// A single-line text box.
#[derive(Clone)]
pub struct TextBox {
    pub x: u32,
    pub y: u32,
    pub width: u32,
    pub height: u32,
    pub text: String,
}

impl TextBox {
    pub fn new(x: u32, y: u32, width: u32, height: u32, initial_text: &str) -> (r: Self)
        ensures
            r.x == x,
            r.y == y,
            r.width == width,
            r.height == height,
            r.text@ == initial_text@,
    {
        TextBox { x, y, width, height, text: initial_text.to_owned() }
    }

    pub fn get_text(&self) -> (r: String)
        ensures
            r@ == self.text@,
    {
        self.text.clone()
    }

    pub fn set_text(&mut self, text: &str)
        ensures
            final(self).text@ == text@,
            final(self).x == old(self).x && final(self).y == old(self).y && final(self).width
                == old(self).width && final(self).height == old(self).height,
    {
        self.text = text.to_owned();
    }
}

impl GUIComponent for TextBox {
    fn draw(&self) {
    }

    fn set_position(&mut self, x: u32, y: u32) {
        self.x = x;
        self.y = y;
    }
}

/// A static text label.
pub struct Label {
    pub x: u32,
    pub y: u32,
    pub width: u32,
    pub height: u32,
    pub text: String,
}

impl Label {
    pub fn new(x: u32, y: u32, width: u32, height: u32, text: &str) -> (r: Self)
        ensures
            r.x == x,
            r.y == y,
            r.width == width,
            r.height == height,
            r.text@ == text@,
    {
        Label { x, y, width, height, text: text.to_owned() }
    }
}

impl GUIComponent for Label {
    fn draw(&self) {
    }

    fn set_position(&mut self, x: u32, y: u32) {
        self.x = x;
        self.y = y;
    }
}

/// A labelled two-state check box.
#[derive(Clone)]
pub struct CheckBox {
    pub x: u32,
    pub y: u32,
    pub label: String,
    pub checked: bool,
}

impl CheckBox {
    pub fn new(x: u32, y: u32, label: &str, checked: bool) -> (r: Self)
        ensures
            r.x == x,
            r.y == y,
            r.label@ == label@,
            r.checked == checked,
    {
        CheckBox { x, y, label: label.to_owned(), checked }
    }

    pub fn is_checked(&self) -> (r: bool)
        ensures
            r == self.checked,
    {
        self.checked
    }

    /// Flips the checked state and touches nothing else.
    pub fn toggle(&mut self)
        ensures
            final(self).checked == !old(self).checked,
            final(self).x == old(self).x && final(self).y == old(self).y && final(self).label@
                == old(self).label@,
    {
        self.checked = !self.checked;
    }
}

impl GUIComponent for CheckBox {
    fn draw(&self) {
    }

    fn set_position(&mut self, x: u32, y: u32) {
        self.x = x;
        self.y = y;
    }
}

} // verus!
